//! The exporter of proof traces, and the path of a proof through the search tree.
use vstd::prelude::*;

verus! {

/// Writes proof traces out for viewing.
#[derive(Debug, Clone, Copy)]
pub struct TraceExporter;

/// Whether every node's parent, where it has one, was created before it.
pub open spec fn parents_precede(parents: Seq<Option<usize>>) -> bool {
    forall|i: int| 0 <= i < parents.len() ==> (#[trigger] parents[i] matches Some(p) ==> p < i)
}

/// The nodes from `n` up to the root of its tree, `n` first; a node outside the list, or one
/// without a parent, ends the path.
pub open spec fn path_up(parents: Seq<Option<usize>>, n: usize) -> Seq<usize>
    decreases n,
{
    if n < parents.len() {
        match parents[n as int] {
            Some(p) => if p < n { seq![n] + path_up(parents, p) } else { seq![n] },
            None => seq![n],
        }
    } else {
        seq![n]
    }
}

impl TraceExporter {
    /// The path of a proof through the search tree, from the root down to the node `proven`,
    /// given the parent of each node.
    pub fn proof_path(parents: &Vec<Option<usize>>, proven: usize) -> (r: Vec<usize>)
        requires parents_precede(parents@),
        ensures r@ == path_up(parents@, proven).reverse(),
    {
        let mut up: Vec<usize> = Vec::new();
        up.push(proven);
        let mut curr = proven;
        while curr < parents.len() && parents[curr].is_some()
            invariant
                parents_precede(parents@),
                up@.len() > 0,
                up@.last() == curr,
                up@.drop_last() + path_up(parents@, curr) == path_up(parents@, proven),
            decreases curr,
        {
            let p = parents[curr].unwrap();
            assert(p < curr);
            proof {
                assert(path_up(parents@, curr) == seq![curr] + path_up(parents@, p));
                assert(up@.drop_last() + path_up(parents@, curr) =~= up@ + path_up(parents@, p));
            }
            up.push(p);
            proof { assert(up@.drop_last() =~= up@.drop_last().drop_last().push(curr)); }
            curr = p;
            proof {
                assert(up@.drop_last() + path_up(parents@, curr) =~= path_up(parents@, proven));
            }
        }
        proof {
            assert(path_up(parents@, curr) == seq![curr]);
            assert(up@ =~= path_up(parents@, proven));
        }
        let mut out: Vec<usize> = Vec::new();
        let mut k = up.len();
        while k > 0
            invariant
                k <= up@.len(),
                out@ == up@.subrange(k as int, up@.len() as int).reverse(),
            decreases k,
        {
            k -= 1;
            out.push(up[k]);
            proof {
                assert(up@.subrange(k as int, up@.len() as int).reverse()
                    =~= up@.subrange(k + 1, up@.len() as int).reverse().push(up@[k as int]));
            }
        }
        proof { assert(up@.subrange(0, up@.len() as int) =~= up@); }
        out
    }
}

} // verus!
