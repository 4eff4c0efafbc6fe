//! Classification of theorems into domains, and the record kept with each stored theorem.
use vstd::prelude::*;
use crate::strings::owned;

verus! {

/// How the similarity of two theorem vectors is measured.
#[derive(Debug, Clone, Copy, PartialEq, Eq, Structural)]
pub enum DistanceMetric {
    Cosine,
    DotProduct,
    Euclidean,
}

/// What is stored beside a theorem's vector.
#[derive(Debug, Clone)]
pub struct TheoremPayload {
    pub name: String,
    pub statement: String,
    pub tactic_name: String,
    pub proof_length: usize,
    pub timestamp: String,
}

/// The lower-case form of a string, as `str::to_lowercase` gives it.
pub uninterp spec fn lowercase(s: Seq<char>) -> Seq<char>;

/// The lower-case form of an ASCII character: `A` to `Z` become `a` to `z`, the rest stays.
pub open spec fn ascii_lower(c: char) -> char {
    if 'A' <= c && c <= 'Z' { ((c as u32) + 32) as char } else { c }
}

/// Lower-cases a string.
/// Trusted: calls `str::to_lowercase`, whose result std's Unicode tables fix from the argument
/// alone; the result is named by `lowercase`. Only for an all-ASCII string is it spelled out, as
/// std documents it: each upper-case ASCII letter becomes its lower-case letter, and every other
/// character stays. Other strings go by the Unicode tables, which are not stated.
#[verifier::external_body]
fn to_lower(s: &str) -> (r: String)
    ensures
        r@ == lowercase(s@),
        (forall|i: int| 0 <= i < s@.len() ==> (#[trigger] s@[i] as u32) < 128)
            ==> r@ == s@.map_values(|c: char| ascii_lower(c)),
{
    s.to_lowercase()
}

/// `p` occurs in `s` as a contiguous run of characters.
pub open spec fn has_sub(s: Seq<char>, p: Seq<char>) -> bool {
    exists|i: int| 0 <= i && i + p.len() <= s.len() && #[trigger] s.subrange(i, i + p.len()) == p
}

/// Whether `pat` occurs in `s`.
pub fn contains_str(s: &str, pat: &str) -> (r: bool)
    ensures r == has_sub(s@, pat@),
{
    let n = s.unicode_len();
    let m = pat.unicode_len();
    if m > n {
        proof {
            assert forall|i: int| 0 <= i && i + pat@.len() <= s@.len() implies #[trigger] s@.subrange(i, i + pat@.len()) != pat@ by {}
        }
        return false;
    }
    let mut i: usize = 0;
    while i <= n - m
        invariant
            n == s@.len(), m == pat@.len(), m <= n,
            i <= n - m + 1,
            forall|k: int| 0 <= k < i ==> #[trigger] s@.subrange(k, k + m) != pat@,
        decreases n - m + 1 - i,
    {
        let mut j: usize = 0;
        let mut same = true;
        while j < m
            invariant
                n == s@.len(), m == pat@.len(), i + m <= n, j <= m,
                same == (forall|q: int| 0 <= q < j ==> s@[i + q] == pat@[q]),
            decreases m - j,
        {
            if s.get_char(i + j) != pat.get_char(j) {
                same = false;
            }
            j += 1;
        }
        if same {
            proof {
                assert(s@.subrange(i as int, i + m) =~= pat@);
            }
            return true;
        }
        proof {
            let q = choose|q: int| 0 <= q < m && s@[i + q] != pat@[q];
            assert(s@.subrange(i as int, i + m)[q] != pat@[q]);
        }
        i += 1;
    }
    false
}

/// The domain a lower-cased text points to, by the first family of keywords it contains.
pub open spec fn domain_label(t: Seq<char>) -> Seq<char> {
    if has_sub(t, "bool"@) || has_sub(t, "de_morgan"@) || has_sub(t, "&"@) || has_sub(t, "|"@) || has_sub(t, "!"@)
        || has_sub(t, "and"@) || has_sub(t, "or"@) || has_sub(t, "not"@) || has_sub(t, "modus"@) {
        "Boolean Logic"@
    } else if has_sub(t, "diff"@) || has_sub(t, "d/dx"@) || has_sub(t, "deriv"@) || has_sub(t, "int"@)
        || has_sub(t, "integral"@) || has_sub(t, "exp"@) || has_sub(t, "sin"@) || has_sub(t, "cos"@) || has_sub(t, "limit"@) {
        "Symbolic Calculus"@
    } else if has_sub(t, "subset"@) || has_sub(t, "union"@) || has_sub(t, "inter"@) || has_sub(t, "empty"@)
        || has_sub(t, "univ"@) || has_sub(t, "succ"@) || has_sub(t, "induct"@) || has_sub(t, "peano"@) {
        "Set Theory & Induction"@
    } else if has_sub(t, "matrix"@) || has_sub(t, "det"@) || has_sub(t, "trans"@) || has_sub(t, "trace"@)
        || has_sub(t, "vector"@) || has_sub(t, "dot"@) {
        "Linear Algebra"@
    } else {
        "Abstract Algebra"@
    }
}

/// The domain of an already lower-cased text.
pub fn classify_domain(lower: &str) -> (r: String)
    ensures r@ == domain_label(lower@),
{
    let t = lower;
    if contains_str(t, "bool") || contains_str(t, "de_morgan") || contains_str(t, "&") || contains_str(t, "|")
        || contains_str(t, "!") || contains_str(t, "and") || contains_str(t, "or") || contains_str(t, "not")
        || contains_str(t, "modus") {
        owned("Boolean Logic")
    } else if contains_str(t, "diff") || contains_str(t, "d/dx") || contains_str(t, "deriv") || contains_str(t, "int")
        || contains_str(t, "integral") || contains_str(t, "exp") || contains_str(t, "sin") || contains_str(t, "cos")
        || contains_str(t, "limit") {
        owned("Symbolic Calculus")
    } else if contains_str(t, "subset") || contains_str(t, "union") || contains_str(t, "inter") || contains_str(t, "empty")
        || contains_str(t, "univ") || contains_str(t, "succ") || contains_str(t, "induct") || contains_str(t, "peano") {
        owned("Set Theory & Induction")
    } else if contains_str(t, "matrix") || contains_str(t, "det") || contains_str(t, "trans") || contains_str(t, "trace")
        || contains_str(t, "vector") || contains_str(t, "dot") {
        owned("Linear Algebra")
    } else {
        owned("Abstract Algebra")
    }
}

/// The domain of a theorem, from its name and statement taken together in lower case.
pub fn detect_domain(name: &str, statement: &str) -> (r: String)
    ensures r@ == domain_label(lowercase(name@) + " "@ + lowercase(statement@)),
{
    let mut lower = to_lower(name);
    lower.append(" ");
    lower.append(to_lower(statement).as_str());
    classify_domain(lower.as_str())
}

} // verus!
