//! First-order terms and equalities.
use vstd::prelude::*;
use crate::strings::{lemma_to_set_push, owned, str_eq, insert_sorted, strictly_sorted, strings_view, int_str, int_digits, nat_str, nat_digits, parse_i64, parse_i64_spec, sorted_listing, lemma_sorted_listing, remove_name};

verus! {

/// A formal mathematical term in first-order logic.
#[derive(Debug)]
pub enum Term {
    Var(String),
    Const(String),
    Func(String, Vec<Term>),
}

/// The mathematical value of a term: names are character sequences.
pub enum STerm {
    Var(Seq<char>),
    Const(Seq<char>),
    Func(Seq<char>, Seq<STerm>),
}

pub open spec fn term_view(t: Term) -> STerm
    decreases t,
{
    match t {
        Term::Var(s) => STerm::Var(s@),
        Term::Const(s) => STerm::Const(s@),
        Term::Func(f, args) => STerm::Func(
            f@,
            Seq::new(
                args@.len(),
                |i: int|
                    if 0 <= i < args@.len() {
                        term_view(args@[i])
                    } else {
                        STerm::Const(Seq::empty())
                    },
            ),
        ),
    }
}

pub open spec fn terms_view(s: Seq<Term>) -> Seq<STerm> {
    Seq::new(s.len(), |i: int| s[i]@)
}

impl View for Term {
    type V = STerm;

    open spec fn view(&self) -> STerm {
        term_view(*self)
    }
}

pub proof fn lemma_view_func(t: Term)
    requires t is Func,
    ensures t@ == STerm::Func(t->Func_0@, terms_view(t->Func_1@)),
{
    assert(terms_view(t->Func_1@) =~= t@->Func_1);
}

/// How the view of each kind of term is made.
pub proof fn lemma_view(t: Term)
    ensures
        t is Var ==> t@ == STerm::Var(t->Var_0@),
        t is Const ==> t@ == STerm::Const(t->Const_0@),
        t is Func ==> t@ == STerm::Func(t->Func_0@, terms_view(t->Func_1@)),
        t is Func ==> terms_view(t->Func_1@).len() == t->Func_1@.len(),
{
    if t is Func {
        lemma_view_func(t);
    }
}

pub proof fn lemma_decreases_arg(t: Term, i: int)
    requires t is Func, 0 <= i < t->Func_1@.len(),
    ensures decreases_to!(t => t->Func_1@[i]),
{
    assert(decreases_to!(t => t->Func_1));
    assert(decreases_to!(t->Func_1 => t->Func_1@));
    assert(decreases_to!(t->Func_1@ => t->Func_1@[i]));
}

// ---------------------------------------------------------------------------
// Specifications over term values
// ---------------------------------------------------------------------------

/// Number of AST nodes.
pub open spec fn size(t: STerm) -> nat
    decreases t,
{
    match t {
        STerm::Func(_, args) => 1 + sizes(args),
        _ => 1,
    }
}

pub open spec fn sizes(s: Seq<STerm>) -> nat
    decreases s,
{
    if s.len() == 0 {
        0
    } else {
        sizes(s.drop_last()) + size(s.last())
    }
}

/// A variable with the given name occurs in the term.
pub open spec fn occurs(t: STerm, v: Seq<char>) -> bool
    decreases t,
{
    match t {
        STerm::Var(n) => n == v,
        STerm::Const(_) => false,
        STerm::Func(_, args) => exists|i: int| #![trigger args[i]] 0 <= i < args.len() && occurs(args[i], v),
    }
}

/// A variable or constant with the given name occurs in the term.
pub open spec fn contains_sym(t: STerm, v: Seq<char>) -> bool
    decreases t,
{
    match t {
        STerm::Var(n) => n == v,
        STerm::Const(n) => n == v,
        STerm::Func(_, args) => exists|i: int| #![trigger args[i]] 0 <= i < args.len() && contains_sym(args[i], v),
    }
}

/// Replaces every variable or constant named `v` by `r`.
pub open spec fn rep(t: STerm, v: Seq<char>, r: STerm) -> STerm
    decreases t,
{
    match t {
        STerm::Var(n) => if n == v { r } else { t },
        STerm::Const(n) => if n == v { r } else { t },
        STerm::Func(f, args) => STerm::Func(
            f,
            Seq::new(args.len(), |i: int| if 0 <= i < args.len() { rep(args[i], v, r) } else { r }),
        ),
    }
}

/// The leaf symbols of a term, other than the numerals 0 and 1.
pub open spec fn symbol_set(t: STerm) -> Set<Seq<char>> {
    Set::new(|s: Seq<char>| contains_sym(t, s) && s != "0"@ && s != "1"@)
}

/// Operators printed between their two operands.
pub open spec fn is_infix(n: Seq<char>) -> bool {
    n == "+"@ || n == "*"@ || n == "·"@ || n == "^"@ || n == "&"@ || n == "|"@ || n == "/"@
}

/// Operators printed in front of their single operand.
pub open spec fn is_prefix_op(n: Seq<char>) -> bool {
    n == "-"@ || n == "!"@
}

/// The printed form of a term.
pub open spec fn display(t: STerm) -> Seq<char>
    decreases t,
{
    match t {
        STerm::Var(n) => "?"@ + n,
        STerm::Const(n) => n,
        STerm::Func(f, args) => if args.len() == 2 && is_infix(f) {
            "("@ + display(args[0]) + " "@ + f + " "@ + display(args[1]) + ")"@
        } else if args.len() == 1 && is_prefix_op(f) {
            f + display(args[0])
        } else {
            f + "("@ + display_list(args) + ")"@
        },
    }
}

/// The printed forms of a list of terms, separated by commas.
pub open spec fn display_list(s: Seq<STerm>) -> Seq<char>
    decreases s,
{
    if s.len() == 0 {
        Seq::empty()
    } else if s.len() == 1 {
        display(s[0])
    } else {
        display_list(s.drop_last()) + ", "@ + display(s.last())
    }
}

// ---------------------------------------------------------------------------
// Executable operations
// ---------------------------------------------------------------------------

impl Clone for Term {
    #[verifier::loop_isolation(false)]
    fn clone(&self) -> (r: Self)
        ensures r@ == self@,
        decreases self,
    {
        proof { lemma_view(*self); }
        match self {
            Term::Var(s) => Term::Var(s.clone()),
            Term::Const(s) => Term::Const(s.clone()),
            Term::Func(f, args) => {
                let mut out: Vec<Term> = Vec::new();
                let mut i: usize = 0;
                while i < args.len()
                    invariant
                        i <= args.len(),
                        out@.len() == i,
                        forall|j: int| 0 <= j < i ==> #[trigger] out@[j]@ == args@[j]@,
                    decreases args.len() - i,
                {
                    proof { lemma_decreases_arg(*self, i as int); }
                    out.push(args[i].clone());
                    i += 1;
                }
                assert(out@.len() == args@.len());
                assert(forall|j: int| 0 <= j < args@.len() ==> out@[j]@ == args@[j]@);
                assert(forall|j: int| 0 <= j < args@.len() ==> terms_view(out@)[j] == out@[j]@);
                assert(terms_view(out@).len() == terms_view(args@).len());
                let r = Term::Func(f.clone(), out);
                proof {
                    lemma_view_func(r);
                    lemma_view_func(*self);
                    assert(terms_view(out@) =~= terms_view(args@));
                }
                r
            },
        }
    }
}

/// Structural equality of two terms.
#[verifier::loop_isolation(false)]
pub fn term_eq(a: &Term, b: &Term) -> (r: bool)
    ensures r == (a@ == b@),
    decreases a,
{
    proof { lemma_view(*a); lemma_view(*b); }
    match (a, b) {
        (Term::Var(x), Term::Var(y)) => {
            assert(a@ == STerm::Var(x@) && b@ == STerm::Var(y@));
            str_eq(x.as_str(), y.as_str())
        },
        (Term::Const(x), Term::Const(y)) => {
            assert(a@ == STerm::Const(x@) && b@ == STerm::Const(y@));
            str_eq(x.as_str(), y.as_str())
        },
        (Term::Func(f, xs), Term::Func(g, ys)) => {
            proof {
                lemma_view_func(*a);
                lemma_view_func(*b);
            }
            if !str_eq(f.as_str(), g.as_str()) || xs.len() != ys.len() {
                proof {
                    if a@ == b@ {
                        assert(terms_view(xs@).len() == terms_view(ys@).len());
                    }
                }
                return false;
            }
            let mut i: usize = 0;
            while i < xs.len()
                invariant
                    i <= xs.len(),
                    xs.len() == ys.len(),
                    forall|j: int| 0 <= j < i ==> #[trigger] xs@[j]@ == ys@[j]@,
                decreases xs.len() - i,
            {
                proof { lemma_decreases_arg(*a, i as int); }
                if !term_eq(&xs[i], &ys[i]) {
                    proof {
                        assert(terms_view(xs@)[i as int] != terms_view(ys@)[i as int]);
                    }
                    return false;
                }
                i += 1;
            }
            proof {
                assert(terms_view(xs@) =~= terms_view(ys@));
            }
            true
        },
        _ => {
            assert(a@ != b@);
            false
        },
    }
}

impl PartialEq for Term {
    fn eq(&self, other: &Self) -> (r: bool) {
        term_eq(self, other)
    }
}

impl vstd::std_specs::cmp::PartialEqSpecImpl for Term {
    open spec fn obeys_eq_spec() -> bool {
        true
    }

    open spec fn eq_spec(&self, other: &Self) -> bool {
        self@ == other@
    }
}

impl Eq for Term {}

impl Term {
    /// A variable named `name`.
    pub fn var(name: &str) -> (r: Term)
        ensures r@ == STerm::Var(name@),
    {
        Term::Var(owned(name))
    }

    /// A constant named `name`.
    pub fn constant(name: &str) -> (r: Term)
        ensures r@ == STerm::Const(name@),
    {
        Term::Const(owned(name))
    }

    /// The application of `name` to `args`.
    pub fn func(name: &str, args: Vec<Term>) -> (r: Term)
        ensures r@ == STerm::Func(name@, terms_view(args@)),
    {
        let r = Term::Func(owned(name), args);
        proof { lemma_view_func(r); }
        r
    }

    /// Whether a variable named `var_name` occurs in the term.
    #[verifier::loop_isolation(false)]
    pub fn occurs(&self, var_name: &str) -> (r: bool)
        ensures r == occurs(self@, var_name@),
        decreases self,
    {
        proof { lemma_view(*self); }
        match self {
            Term::Var(name) => str_eq(name.as_str(), var_name),
            Term::Const(_) => false,
            Term::Func(_, args) => {
                proof { lemma_view_func(*self); }
                assert(args@ == (*self)->Func_1@);
                let mut i: usize = 0;
                while i < args.len()
                    invariant
                        i <= args.len(),
                        forall|j: int| 0 <= j < i ==> !occurs(#[trigger] args@[j]@, var_name@),
                    decreases args.len() - i,
                {
                    proof { lemma_decreases_arg(*self, i as int); }
                    if args[i].occurs(var_name) {
                        proof {
                            assert(self@->Func_1[i as int] == args@[i as int]@);
                            assert(occurs(self@->Func_1[i as int], var_name@));
                        }
                        return true;
                    }
                    i += 1;
                }
                proof {
                    assert forall|j: int| 0 <= j < terms_view(args@).len() implies !occurs(#[trigger] terms_view(args@)[j], var_name@) by {
                        assert(terms_view(args@)[j] == args@[j]@);
                    }
                }
                false
            },
        }
    }

    /// Whether a variable or constant named `sym` occurs in the term.
    #[verifier::loop_isolation(false)]
    pub fn contains_symbol(&self, sym: &str) -> (r: bool)
        ensures r == contains_sym(self@, sym@),
        decreases self,
    {
        proof { lemma_view(*self); }
        match self {
            Term::Var(name) => str_eq(name.as_str(), sym),
            Term::Const(name) => str_eq(name.as_str(), sym),
            Term::Func(_, args) => {
                proof { lemma_view_func(*self); }
                let mut i: usize = 0;
                while i < args.len()
                    invariant
                        i <= args.len(),
                        forall|j: int| 0 <= j < i ==> !contains_sym(#[trigger] args@[j]@, sym@),
                    decreases args.len() - i,
                {
                    proof { lemma_decreases_arg(*self, i as int); }
                    if args[i].contains_symbol(sym) {
                        proof {
                            assert(self@->Func_1[i as int] == args@[i as int]@);
                            assert(contains_sym(self@->Func_1[i as int], sym@));
                        }
                        return true;
                    }
                    i += 1;
                }
                proof {
                    assert forall|j: int| 0 <= j < terms_view(args@).len() implies !contains_sym(#[trigger] terms_view(args@)[j], sym@) by {
                        assert(terms_view(args@)[j] == args@[j]@);
                    }
                }
                false
            },
        }
    }

    /// Replaces every variable or constant named `var_name` by `replacement`.
    #[verifier::loop_isolation(false)]
    pub fn replace_variable(&self, var_name: &str, replacement: &Term) -> (r: Term)
        ensures r@ == rep(self@, var_name@, replacement@),
        decreases self,
    {
        proof { lemma_view(*self); }
        match self {
            Term::Var(name) => {
                assert(self@ == STerm::Var(name@));
                if str_eq(name.as_str(), var_name) {
                    let c = replacement.clone();
                    assert(rep(self@, var_name@, replacement@) == replacement@);
                    assert(c@ == rep(self@, var_name@, replacement@));
                    c
                } else {
                    let c = self.clone();
                    assert(rep(self@, var_name@, replacement@) == self@);
                    assert(c@ == rep(self@, var_name@, replacement@));
                    c
                }
            },
            Term::Const(name) => {
                if str_eq(name.as_str(), var_name) {
                    let c = replacement.clone();
                    assert(c@ == rep(self@, var_name@, replacement@));
                    c
                } else {
                    let c = self.clone();
                    assert(c@ == rep(self@, var_name@, replacement@));
                    c
                }
            },
            Term::Func(f, args) => {
                proof { lemma_view_func(*self); }
                let mut out: Vec<Term> = Vec::new();
                let mut i: usize = 0;
                while i < args.len()
                    invariant
                        i <= args.len(),
                        out@.len() == i,
                        forall|j: int| 0 <= j < i ==> #[trigger] out@[j]@ == rep(args@[j]@, var_name@, replacement@),
                    decreases args.len() - i,
                {
                    proof { lemma_decreases_arg(*self, i as int); }
                    out.push(args[i].replace_variable(var_name, replacement));
                    i += 1;
                }
                let r = Term::Func(f.clone(), out);
                proof {
                    lemma_view_func(r);
                    let rv = rep(self@, var_name@, replacement@);
                    assert(rv->Func_1 =~= terms_view(out@));
                }
                r
            },
        }
    }

    /// Number of AST nodes of the term.
    #[verifier::loop_isolation(false)]
    pub fn size(&self) -> (r: usize)
        requires size(self@) <= usize::MAX,
        ensures r == size(self@),
        decreases self,
    {
        proof { lemma_view(*self); }
        match self {
            Term::Var(_) => 1,
            Term::Const(_) => 1,
            Term::Func(_, args) => {
                proof { lemma_view_func(*self); }
                let mut total: usize = 1;
                let mut i: usize = 0;
                while i < args.len()
                    invariant
                        0 <= i <= args.len(),
                        total == 1 + sizes(terms_view(args@).take(i as int)),
                    decreases args.len() - i,
                {
                    proof {
                        lemma_decreases_arg(*self, i as int);
                        lemma_sizes_take(terms_view(args@), i as int + 1);
                    }
                    let s = args[i].size();
                    total = total + s;
                    i += 1;
                }
                proof { assert(terms_view(args@).take(i as int) =~= terms_view(args@)); }
                total
            },
        }
    }
}

/// The size of a prefix of a sequence of terms, and how it grows by one term.
pub proof fn lemma_sizes_take(s: Seq<STerm>, i: int)
    requires 0 <= i <= s.len(),
    ensures
        sizes(s.take(i)) <= sizes(s),
        i > 0 ==> sizes(s.take(i)) == sizes(s.take(i - 1)) + size(s[i - 1]),
    decreases s.len(),
{
    if i > 0 {
        assert(s.take(i).drop_last() =~= s.take(i - 1));
    }
    if i < s.len() {
        lemma_sizes_take(s.drop_last(), i);
        assert(s.drop_last().take(i) =~= s.take(i));
    } else {
        assert(s.take(i) =~= s);
    }
}

/// The term that stands for an integer: a numeral, negated when below zero.
pub open spec fn int_term(n: int) -> STerm {
    if n < 0 {
        STerm::Func("-"@, seq![STerm::Const(nat_digits((-n) as nat))])
    } else {
        STerm::Const(nat_digits(n as nat))
    }
}

/// The integer a term stands for, when it is a numeral or a negated numeral within i64.
pub open spec fn term_int(t: STerm) -> Option<i64> {
    match t {
        STerm::Const(s) => parse_i64_spec(s),
        STerm::Func(f, args) => if f == "-"@ && args.len() == 1 && args[0] is Const {
            match parse_i64_spec(args[0]->Const_0) {
                Some(v) => if v == i64::MIN { None } else { Some((-v) as i64) },
                None => None,
            }
        } else {
            None
        },
        _ => None,
    }
}

impl Term {
    /// The term standing for the integer `n`.
    pub fn from_i64(n: i64) -> (r: Term)
        ensures r@ == int_term(n as int),
    {
        if n < 0 {
            let m: u64 = if n == i64::MIN { 9223372036854775808u64 } else { (-n) as u64 };
            let inner = Term::Const(nat_str(m));
            let mut args: Vec<Term> = Vec::new();
            args.push(inner);
            let r = Term::func("-", args);
            proof {
                assert(terms_view(args@) =~= seq![STerm::Const(nat_digits((-(n as int)) as nat))]);
            }
            r
        } else {
            Term::Const(nat_str(n as u64))
        }
    }

    /// The integer the term stands for, if it is a numeral or a negated numeral.
    pub fn as_i64(&self) -> (r: Option<i64>)
        ensures r == term_int(self@),
    {
        proof { lemma_view(*self); }
        match self {
            Term::Const(s) => parse_i64(s.as_str()),
            Term::Func(f, args) => {
                if str_eq(f.as_str(), "-") && args.len() == 1 {
                    proof { lemma_view(args@[0]); }
                    match &args[0] {
                        Term::Const(s) => {
                            match parse_i64(s.as_str()) {
                                Some(v) => if v == i64::MIN { None } else { Some(-v) },
                                None => None,
                            }
                        },
                        _ => None,
                    }
                } else {
                    None
                }
            },
            Term::Var(_) => None,
        }
    }

    /// Adds the leaf symbols of the term, other than 0 and 1, to an ascending set.
    #[verifier::loop_isolation(false)]
    fn collect_symbols(&self, acc: &mut Vec<String>)
        requires strictly_sorted(strings_view(old(acc)@)),
        ensures
            strictly_sorted(strings_view(final(acc)@)),
            strings_view(final(acc)@).to_set() == strings_view(old(acc)@).to_set().union(symbol_set(self@)),
        decreases self,
    {
        proof { lemma_view(*self); }
        let ghost old_set = strings_view(acc@).to_set();
        match self {
            Term::Var(name) | Term::Const(name) => {
                if !str_eq(name.as_str(), "0") && !str_eq(name.as_str(), "1") {
                    insert_sorted(acc, name.clone());
                    proof {
                        assert(symbol_set(self@) =~= set![name@]);
                        assert(old_set.insert(name@) =~= old_set.union(set![name@]));
                    }
                } else {
                    proof {
                        assert(symbol_set(self@) =~= Set::empty());
                        assert(old_set =~= old_set.union(Set::empty()));
                    }
                }
            },
            Term::Func(_, args) => {
                let mut i: usize = 0;
                while i < args.len()
                    invariant
                        i <= args.len(),
                        strictly_sorted(strings_view(acc@)),
                        forall|x: Seq<char>| #[trigger] strings_view(acc@).to_set().contains(x) <==>
                            (old_set.contains(x) || exists|j: int| 0 <= j < i && #[trigger] symbol_set(args@[j]@).contains(x)),
                    decreases args.len() - i,
                {
                    proof { lemma_decreases_arg(*self, i as int); }
                    let ghost before = strings_view(acc@).to_set();
                    args[i].collect_symbols(acc);
                    proof {
                        assert forall|x: Seq<char>| #[trigger] strings_view(acc@).to_set().contains(x) <==>
                            (old_set.contains(x) || exists|j: int| 0 <= j < i + 1 && #[trigger] symbol_set(args@[j]@).contains(x)) by {
                            if symbol_set(args@[i as int]@).contains(x) {
                                assert(0 <= i < i + 1);
                            }
                            if exists|j: int| 0 <= j < i + 1 && #[trigger] symbol_set(args@[j]@).contains(x) {
                                let j = choose|j: int| 0 <= j < i + 1 && #[trigger] symbol_set(args@[j]@).contains(x);
                                if j < i {
                                    assert(before.contains(x));
                                }
                            }
                        }
                    }
                    i += 1;
                }
                proof {
                    assert(strings_view(acc@).to_set() =~= old_set.union(symbol_set(self@))) by {
                        assert forall|x: Seq<char>| strings_view(acc@).to_set().contains(x) <==> old_set.union(symbol_set(self@)).contains(x) by {
                            if exists|j: int| 0 <= j < i && #[trigger] symbol_set(args@[j]@).contains(x) {
                                let j = choose|j: int| 0 <= j < i && #[trigger] symbol_set(args@[j]@).contains(x);
                                assert(self@->Func_1[j] == args@[j]@);
                                assert(contains_sym(self@, x));
                            }
                            if symbol_set(self@).contains(x) {
                                let j = choose|j: int| 0 <= j < self@->Func_1.len() && contains_sym(self@->Func_1[j], x);
                                assert(self@->Func_1[j] == args@[j]@);
                                assert(symbol_set(args@[j]@).contains(x));
                            }
                        }
                    }
                }
            },
        }
    }

    /// The leaf symbols of the term other than 0 and 1, ascending and without repeats.
    pub fn extract_symbols(&self) -> (r: Vec<String>)
        ensures
            strictly_sorted(strings_view(r@)),
            strings_view(r@).to_set() == symbol_set(self@),
    {
        let mut acc: Vec<String> = Vec::new();
        proof {
            assert(strings_view(acc@) =~= Seq::empty());
            assert(Set::<Seq<char>>::empty().union(symbol_set(self@)) =~= symbol_set(self@));
        }
        self.collect_symbols(&mut acc);
        acc
    }

    /// The printed form of the term.
    #[verifier::loop_isolation(false)]
    pub fn to_string(&self) -> (r: String)
        ensures r@ == display(self@),
        decreases self,
    {
        proof { lemma_view(*self); }
        match self {
            Term::Var(name) => {
                let mut s = owned("?");
                s.append(name.as_str());
                s
            },
            Term::Const(name) => name.clone(),
            Term::Func(f, args) => {
                let ghost sa = self@->Func_1;
                if args.len() == 2 && (str_eq(f.as_str(), "+") || str_eq(f.as_str(), "*") || str_eq(f.as_str(), "·")
                    || str_eq(f.as_str(), "^") || str_eq(f.as_str(), "&") || str_eq(f.as_str(), "|")
                    || str_eq(f.as_str(), "/")) {
                    proof {
                        lemma_decreases_arg(*self, 0);
                        lemma_decreases_arg(*self, 1);
                        assert(sa[0] == args@[0]@ && sa[1] == args@[1]@);
                    }
                    let mut s = owned("(");
                    s.append(args[0].to_string().as_str());
                    s.append(" ");
                    s.append(f.as_str());
                    s.append(" ");
                    s.append(args[1].to_string().as_str());
                    s.append(")");
                    assert(s@ == display(self@));
                    s
                } else if args.len() == 1 && (str_eq(f.as_str(), "-") || str_eq(f.as_str(), "!")) {
                    proof {
                        lemma_decreases_arg(*self, 0);
                        assert(sa[0] == args@[0]@);
                    }
                    let mut s = f.clone();
                    s.append(args[0].to_string().as_str());
                    assert(s@ == display(self@));
                    s
                } else {
                    let mut s = f.clone();
                    s.append("(");
                    let mut i: usize = 0;
                    while i < args.len()
                        invariant
                            i <= args.len(),
                            s@ == f@ + "("@ + display_list(sa.take(i as int)),
                        decreases args.len() - i,
                    {
                        proof {
                            lemma_decreases_arg(*self, i as int);
                            assert(sa.take(i + 1).drop_last() =~= sa.take(i as int));
                            assert(sa.take(i + 1).last() == args@[i as int]@);
                            assert(sa.take(i + 1).len() == i + 1);
                        }
                        if i > 0 {
                            s.append(", ");
                        }
                        s.append(args[i].to_string().as_str());
                        proof {
                            if i == 0 {
                                assert(sa.take(0) =~= Seq::<STerm>::empty());
                                assert(sa.take(1)[0] == sa[0]);
                            }
                        }
                        i += 1;
                    }
                    s.append(")");
                    proof {
                        assert(sa.take(i as int) =~= sa);
                    }
                    assert(s@ == display(self@));
                    s
                }
            },
        }
    }
}

/// A formal proposition: an equality between two terms.
#[derive(Debug)]
pub struct Equality {
    pub lhs: Term,
    pub rhs: Term,
}

/// The mathematical value of an equality.
pub struct SEquality {
    pub lhs: STerm,
    pub rhs: STerm,
}

impl View for Equality {
    type V = SEquality;

    open spec fn view(&self) -> SEquality {
        SEquality { lhs: self.lhs@, rhs: self.rhs@ }
    }
}

/// The printed form of an equality.
pub open spec fn display_eq(e: SEquality) -> Seq<char> {
    display(e.lhs) + " = "@ + display(e.rhs)
}

impl Clone for Equality {
    fn clone(&self) -> (r: Self)
        ensures r@ == self@,
    {
        Equality { lhs: self.lhs.clone(), rhs: self.rhs.clone() }
    }
}

impl PartialEq for Equality {
    fn eq(&self, other: &Self) -> (r: bool) {
        term_eq(&self.lhs, &other.lhs) && term_eq(&self.rhs, &other.rhs)
    }
}

impl vstd::std_specs::cmp::PartialEqSpecImpl for Equality {
    open spec fn obeys_eq_spec() -> bool {
        true
    }

    open spec fn eq_spec(&self, other: &Self) -> bool {
        self@ == other@
    }
}

impl Eq for Equality {}

impl Equality {
    pub fn new(lhs: Term, rhs: Term) -> (r: Equality)
        ensures r.lhs@ == lhs@, r.rhs@ == rhs@,
    {
        Equality { lhs, rhs }
    }

    /// The same equality read right to left.
    pub fn flip(&self) -> (r: Equality)
        ensures r.lhs@ == self.rhs@, r.rhs@ == self.lhs@,
    {
        Equality { lhs: self.rhs.clone(), rhs: self.lhs.clone() }
    }

    /// Replaces a variable or constant on both sides.
    pub fn replace_variable(&self, var_name: &str, replacement: &Term) -> (r: Equality)
        ensures
            r.lhs@ == rep(self.lhs@, var_name@, replacement@),
            r.rhs@ == rep(self.rhs@, var_name@, replacement@),
    {
        Equality {
            lhs: self.lhs.replace_variable(var_name, replacement),
            rhs: self.rhs.replace_variable(var_name, replacement),
        }
    }

    /// The printed form `lhs = rhs`.
    pub fn to_string(&self) -> (r: String)
        ensures r@ == display_eq(self@),
    {
        let mut s = self.lhs.to_string();
        s.append(" = ");
        s.append(self.rhs.to_string().as_str());
        s
    }
}

/// A list of one term.
pub fn one_arg(a: Term) -> (r: Vec<Term>)
    ensures terms_view(r@) == seq![a@],
{
    let mut v: Vec<Term> = Vec::new();
    v.push(a);
    assert(terms_view(v@) =~= seq![a@]);
    v
}

/// A list of two terms.
pub fn two_args(a: Term, b: Term) -> (r: Vec<Term>)
    ensures terms_view(r@) == seq![a@, b@],
{
    let mut v: Vec<Term> = Vec::new();
    v.push(a);
    v.push(b);
    assert(terms_view(v@) =~= seq![a@, b@]);
    v
}

/// The application of `name` to one term.
pub fn func1(name: &str, a: Term) -> (r: Term)
    ensures r@ == STerm::Func(name@, seq![a@]),
{
    Term::func(name, one_arg(a))
}

/// The application of `name` to two terms.
pub fn func2(name: &str, a: Term, b: Term) -> (r: Term)
    ensures r@ == STerm::Func(name@, seq![a@, b@]),
{
    Term::func(name, two_args(a, b))
}


pub proof fn lemma_terms_view_push(s: Seq<Term>, x: Term)
    ensures terms_view(s.push(x)) == terms_view(s).push(x@),
{
    assert(terms_view(s.push(x)) =~= terms_view(s).push(x@));
}

pub proof fn lemma_terms_view_update(s: Seq<Term>, i: int, x: Term)
    requires 0 <= i < s.len(),
    ensures terms_view(s.update(i, x)) == terms_view(s).update(i, x@),
{
    assert(terms_view(s.update(i, x)) =~= terms_view(s).update(i, x@));
}

/// A copy of a list of terms.
pub fn clone_terms(v: &Vec<Term>) -> (r: Vec<Term>)
    ensures terms_view(r@) == terms_view(v@),
{
    let mut out: Vec<Term> = Vec::new();
    let mut i: usize = 0;
    while i < v.len()
        invariant
            i <= v.len(),
            out@.len() == i,
            forall|j: int| 0 <= j < i ==> #[trigger] out@[j]@ == v@[j]@,
        decreases v.len() - i,
    {
        out.push(v[i].clone());
        i += 1;
    }
    assert(terms_view(out@) =~= terms_view(v@));
    out
}


/// A leaf name that stands for a variable: not a numeral, not the imaginary unit, not a boolean constant.
pub open spec fn is_var_name(s: Seq<char>) -> bool {
    parse_i64_spec(s) is None && s != "i"@ && s != "true"@ && s != "false"@
}

/// The variables of an equality.
pub open spec fn var_set(e: SEquality) -> Set<Seq<char>> {
    symbol_set(e.lhs).union(symbol_set(e.rhs)).filter(|s: Seq<char>| is_var_name(s))
}

/// The variables of an equality in ascending order.
pub open spec fn eq_vars(e: SEquality) -> Seq<Seq<char>> {
    sorted_listing(var_set(e))
}

fn is_variable_name(s: &str) -> (r: bool)
    ensures r == is_var_name(s@),
{
    parse_i64(s).is_none() && !str_eq(s, "i") && !str_eq(s, "true") && !str_eq(s, "false")
}

impl Equality {
    /// The variables of both sides, ascending and without repeats.
    pub fn extract_variables(&self) -> (r: Vec<String>)
        ensures
            strings_view(r@) == eq_vars(self@),
            strictly_sorted(strings_view(r@)),
            strings_view(r@).to_set() == var_set(self@),
    {
        let mut v = self.lhs.extract_symbols();
        let rhs = self.rhs.extract_symbols();
        let ghost left = strings_view(v@).to_set();
        let mut i: usize = 0;
        while i < rhs.len()
            invariant
                i <= rhs.len(),
                strictly_sorted(strings_view(v@)),
                strings_view(v@).to_set() == left.union(strings_view(rhs@).take(i as int).to_set()),
            decreases rhs.len() - i,
        {
            let ghost before = strings_view(v@).to_set();
            insert_sorted(&mut v, rhs[i].clone());
            proof {
                assert(strings_view(rhs@).take(i + 1) =~= strings_view(rhs@).take(i as int).push(rhs@[i as int]@));
                lemma_to_set_push(strings_view(rhs@).take(i as int), rhs@[i as int]@);
                assert(strings_view(v@).to_set() =~= left.union(strings_view(rhs@).take(i + 1).to_set()));
            }
            i += 1;
        }
        proof { assert(strings_view(rhs@).take(i as int) =~= strings_view(rhs@)); }
        let all = clone_strings(&v);
        let ghost full = strings_view(all@).to_set();
        let mut k: usize = 0;
        while k < all.len()
            invariant
                k <= all.len(),
                full == strings_view(all@).to_set(),
                strictly_sorted(strings_view(v@)),
                strings_view(v@).to_set() == full.filter(|s: Seq<char>| is_var_name(s) || !strings_view(all@).take(k as int).contains(s)),
            decreases all.len() - k,
        {
            let ghost before = strings_view(v@).to_set();
            let ghost pre = strings_view(all@).take(k as int);
            let ghost cur = all@[k as int]@;
            proof { assert(strings_view(all@).take(k + 1) =~= pre.push(cur)); }
            proof {
                assert forall|x: Seq<char>| strings_view(all@).take(k + 1).contains(x) <==> (pre.contains(x) || x == cur) by {
                    lemma_to_set_push(pre, cur);
                    assert(pre.push(cur).to_set().contains(x) == pre.push(cur).contains(x));
                    assert(pre.to_set().contains(x) == pre.contains(x));
                }
                assert(strings_view(all@)[k as int] == cur);
                assert(full.contains(cur));
            }
            if !is_variable_name(all[k].as_str()) {
                remove_name(&mut v, all[k].as_str());
                proof {
                    assert(strings_view(v@).to_set() =~= full.filter(|s: Seq<char>| is_var_name(s) || !strings_view(all@).take(k + 1).contains(s)));
                }
            } else {
                proof {
                    assert(strings_view(v@).to_set() =~= full.filter(|s: Seq<char>| is_var_name(s) || !strings_view(all@).take(k + 1).contains(s)));
                }
            }
            k += 1;
        }
        proof {
            assert(strings_view(all@).take(k as int) =~= strings_view(all@));
            assert(strings_view(v@).to_set() =~= var_set(self@));
            lemma_sorted_listing(strings_view(v@));
        }
        v
    }
}

/// A copy of a list of strings.
pub fn clone_strings(v: &Vec<String>) -> (r: Vec<String>)
    ensures strings_view(r@) == strings_view(v@),
{
    let mut out: Vec<String> = Vec::new();
    let mut i: usize = 0;
    while i < v.len()
        invariant
            i <= v.len(),
            out@.len() == i,
            forall|j: int| 0 <= j < i ==> #[trigger] out@[j]@ == v@[j]@,
        decreases v.len() - i,
    {
        out.push(v[i].clone());
        i += 1;
    }
    assert(strings_view(out@) =~= strings_view(v@));
    out
}

} // verus!
