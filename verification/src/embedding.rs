//! Structural statistics of terms used to embed proof states.
use vstd::prelude::*;
use crate::fol::{Term, STerm, size, sizes, lemma_view, lemma_view_func, lemma_decreases_arg, terms_view, lemma_sizes_take};

verus! {

/// The depth of a term: 1 for a leaf, one more than its deepest argument for an application.
pub open spec fn depth(t: STerm) -> nat
    decreases t,
{
    match t {
        STerm::Func(_, args) => 1 + depths(args),
        _ => 1,
    }
}

/// The greatest depth in a list of terms, 0 for none.
pub open spec fn depths(s: Seq<STerm>) -> nat
    decreases s,
{
    if s.len() == 0 {
        0
    } else {
        let a = depths(s.drop_last());
        let b = depth(s.last());
        if a >= b { a } else { b }
    }
}

proof fn lemma_depth_le_size(t: STerm)
    ensures depth(t) <= size(t),
    decreases t,
{
    match t {
        STerm::Func(_, args) => { lemma_depths_le_sizes(args); },
        _ => {},
    }
}

proof fn lemma_depths_le_sizes(s: Seq<STerm>)
    ensures depths(s) <= sizes(s),
    decreases s,
{
    if s.len() > 0 {
        lemma_depths_le_sizes(s.drop_last());
        lemma_depth_le_size(s.last());
    }
}

/// The depth and the number of nodes of a term.
#[verifier::loop_isolation(false)]
pub fn term_stats(term: &Term) -> (r: (usize, usize))
    requires size(term@) <= usize::MAX,
    ensures r.0 == depth(term@), r.1 == size(term@),
    decreases term,
{
    proof { lemma_view(*term); lemma_depth_le_size(term@); }
    match term {
        Term::Func(_, args) => {
            proof { lemma_view_func(*term); }
            let ghost sa = terms_view(args@);
            let mut max_depth: usize = 0;
            let mut total_nodes: usize = 1;
            let mut i: usize = 0;
            assert(sa.take(0) =~= Seq::<STerm>::empty());
            while i < args.len()
                invariant
                    i <= args.len(),
                    sa == terms_view(args@),
                    max_depth == depths(sa.take(i as int)),
                    total_nodes == 1 + sizes(sa.take(i as int)),
                decreases args.len() - i,
            {
                proof {
                    lemma_decreases_arg(*term, i as int);
                    lemma_sizes_take(sa, i + 1);
                    lemma_depths_le_sizes(sa.take(i + 1));
                    assert(sa.take(i + 1).drop_last() =~= sa.take(i as int));
                    assert(sa.take(i + 1).last() == args@[i as int]@);
                    lemma_sizes_take(sa.take(i + 1), i + 1);
                    assert(sa.take(i + 1).take(i + 1) =~= sa.take(i + 1));
                    assert(sizes(sa.take(i + 1)) == sizes(sa.take(i as int)) + size(args@[i as int]@)) by {
                        lemma_sizes_take(sa, i + 1);
                    }
                }
                let (d, n) = term_stats(&args[i]);
                if d > max_depth {
                    max_depth = d;
                }
                total_nodes = total_nodes + n;
                i += 1;
            }
            assert(sa.take(i as int) =~= sa);
            (max_depth + 1, total_nodes)
        },
        _ => (1, 1),
    }
}

} // verus!
