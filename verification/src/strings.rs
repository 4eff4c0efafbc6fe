//! Character-sequence utilities: equality, ordering and decimal numerals.
use vstd::prelude::*;

verus! {

/// Compares two string slices for equality of their characters.
pub(crate) fn str_eq(a: &str, b: &str) -> (r: bool)
    ensures r == (a@ == b@),
{
    let n = a.unicode_len();
    if n != b.unicode_len() {
        return false;
    }
    let mut i: usize = 0;
    while i < n
        invariant
            i <= n,
            n == a@.len(),
            n == b@.len(),
            forall|k: int| 0 <= k < i ==> a@[k] == b@[k],
        decreases n - i,
    {
        if a.get_char(i) != b.get_char(i) {
            return false;
        }
        i += 1;
    }
    assert(a@ =~= b@);
    true
}

/// Builds an owned string holding the characters of `s`.
pub fn owned(s: &str) -> (r: String)
    ensures r@ == s@,
{
    String::from_str(s)
}

/// Lexicographic strict order on character sequences, by code point
/// (the order of `String` in std, since UTF-8 preserves code point order).
pub open spec fn lex_lt(a: Seq<char>, b: Seq<char>) -> bool
    decreases a.len(),
{
    if a.len() == 0 {
        b.len() > 0
    } else if b.len() == 0 {
        false
    } else if a[0] == b[0] {
        lex_lt(a.drop_first(), b.drop_first())
    } else {
        (a[0] as int) < (b[0] as int)
    }
}

pub proof fn lemma_lex_irrefl(a: Seq<char>)
    ensures !lex_lt(a, a),
    decreases a.len(),
{
    if a.len() > 0 {
        lemma_lex_irrefl(a.drop_first());
    }
}

pub proof fn lemma_lex_trans(a: Seq<char>, b: Seq<char>, c: Seq<char>)
    requires lex_lt(a, b), lex_lt(b, c),
    ensures lex_lt(a, c),
    decreases a.len(),
{
    if a.len() > 0 && b.len() > 0 && c.len() > 0 {
        if a[0] == b[0] && b[0] == c[0] {
            lemma_lex_trans(a.drop_first(), b.drop_first(), c.drop_first());
        }
    }
}

pub proof fn lemma_lex_total(a: Seq<char>, b: Seq<char>)
    ensures lex_lt(a, b) || lex_lt(b, a) || a == b,
    decreases a.len(),
{
    if a.len() > 0 && b.len() > 0 {
        if a[0] == b[0] {
            lemma_lex_total(a.drop_first(), b.drop_first());
            if a.drop_first() == b.drop_first() {
                assert(a =~= seq![a[0]] + a.drop_first());
                assert(b =~= seq![b[0]] + b.drop_first());
            }
        } else {
        }
    } else if a.len() == 0 && b.len() == 0 {
        assert(a =~= b);
    }
}

pub proof fn lemma_lex_asym(a: Seq<char>, b: Seq<char>)
    requires lex_lt(a, b),
    ensures !lex_lt(b, a), a != b,
{
    if lex_lt(b, a) {
        lemma_lex_trans(a, b, a);
        lemma_lex_irrefl(a);
    }
    if a == b {
        lemma_lex_irrefl(a);
    }
}

/// Compares two strings in the order of `lex_lt`.
pub fn str_lt(a: &str, b: &str) -> (r: bool)
    ensures r == lex_lt(a@, b@),
{
    let la = a.unicode_len();
    let lb = b.unicode_len();
    let mut i: usize = 0;
    proof {
        assert(a@.skip(0) =~= a@);
        assert(b@.skip(0) =~= b@);
    }
    while i < la && i < lb
        invariant
            la == a@.len(), lb == b@.len(), i <= la, i <= lb,
            lex_lt(a@, b@) == lex_lt(a@.skip(i as int), b@.skip(i as int)),
        decreases la - i,
    {
        let ca = a.get_char(i);
        let cb = b.get_char(i);
        proof {
            assert(a@.skip(i as int)[0] == ca);
            assert(b@.skip(i as int)[0] == cb);
            assert(a@.skip(i as int).drop_first() =~= a@.skip(i + 1));
            assert(b@.skip(i as int).drop_first() =~= b@.skip(i + 1));
        }
        if ca != cb {
            return (ca as u32) < (cb as u32);
        }
        i += 1;
    }
    i == la && i < lb
}

/// A strictly ascending sequence of character sequences.
pub open spec fn strictly_sorted(s: Seq<Seq<char>>) -> bool {
    forall|i: int, j: int| 0 <= i < j < s.len() ==> lex_lt(#[trigger] s[i], #[trigger] s[j])
}

pub open spec fn strings_view(v: Seq<String>) -> Seq<Seq<char>> {
    Seq::new(v.len(), |i: int| v[i]@)
}

/// Inserts `s` into a strictly ascending vector unless it is already there.
pub fn insert_sorted(v: &mut Vec<String>, s: String)
    requires strictly_sorted(strings_view(old(v)@)),
    ensures
        strictly_sorted(strings_view(final(v)@)),
        strings_view(final(v)@).to_set() == strings_view(old(v)@).to_set().insert(s@),
{
    let ghost old_v = strings_view(v@);
    let mut i: usize = 0;
    while i < v.len() && !str_lt(s.as_str(), v[i].as_str())
        invariant
            i <= v.len(),
            strings_view(v@) == old_v,
            strictly_sorted(old_v),
            forall|j: int| 0 <= j < i ==> lex_lt(#[trigger] old_v[j], s@),
        decreases v.len() - i,
    {
        if str_eq(v[i].as_str(), s.as_str()) {
            proof {
                assert(old_v[i as int] == s@);
                assert(old_v.contains(s@));
                assert(old_v.to_set().insert(s@) =~= old_v.to_set());
            }
            return;
        }
        proof {
            lemma_lex_total(old_v[i as int], s@);
        }
        i += 1;
    }
    let ghost pos = i as int;
    proof {
        if pos < old_v.len() {
            lemma_lex_total(old_v[pos], s@);
        }
    }
    v.insert(i, s);
    proof {
        let nv = strings_view(v@);
        assert(nv =~= old_v.insert(pos, s@));
        assert forall|a: int, b: int| 0 <= a < b < nv.len() implies lex_lt(#[trigger] nv[a], #[trigger] nv[b]) by {
            if a < pos && b == pos {
            } else if a < pos && b > pos {
                assert(nv[b] == old_v[b - 1]);
                if pos < old_v.len() {
                    assert(lex_lt(s@, old_v[pos]));
                    if b - 1 > pos {
                        lemma_lex_trans(s@, old_v[pos], old_v[b - 1]);
                    }
                    lemma_lex_trans(nv[a], s@, nv[b]);
                }
            } else if a == pos {
                assert(lex_lt(s@, old_v[pos]));
                if b - 1 > pos {
                    lemma_lex_trans(s@, old_v[pos], old_v[b - 1]);
                }
            } else if a > pos {
                assert(nv[a] == old_v[a - 1]);
                assert(nv[b] == old_v[b - 1]);
            }
        }
        assert(nv.to_set() =~= old_v.to_set().insert(s@)) by {
            assert forall|x: Seq<char>| nv.to_set().contains(x) <==> old_v.to_set().insert(s@).contains(x) by {
                if nv.contains(x) {
                    let k = choose|k: int| 0 <= k < nv.len() && nv[k] == x;
                    if k < pos { assert(old_v[k] == x); } else if k > pos { assert(old_v[k - 1] == x); }
                }
                if old_v.contains(x) {
                    let k = choose|k: int| 0 <= k < old_v.len() && old_v[k] == x;
                    if k < pos { assert(nv[k] == x); } else { assert(nv[k + 1] == x); }
                }
                if x == s@ { assert(nv[pos] == x); }
            }
        }
    }
}

/// The character of a decimal digit.
pub open spec fn digit_char(d: nat) -> char {
    if d == 0 { '0' } else if d == 1 { '1' } else if d == 2 { '2' } else if d == 3 { '3' }
    else if d == 4 { '4' } else if d == 5 { '5' } else if d == 6 { '6' } else if d == 7 { '7' }
    else if d == 8 { '8' } else { '9' }
}

/// The decimal numeral of a natural number, without leading zeros.
pub open spec fn nat_digits(n: nat) -> Seq<char>
    decreases n,
{
    if n < 10 {
        seq![digit_char(n)]
    } else {
        nat_digits(n / 10).push(digit_char(n % 10))
    }
}

/// The numeral of an integer, as `Display` for integers writes it.
pub open spec fn int_digits(n: int) -> Seq<char> {
    if n < 0 { seq!['-'] + nat_digits((-n) as nat) } else { nat_digits(n as nat) }
}

fn digit_str(d: u64) -> (r: &'static str)
    requires d < 10,
    ensures r@ == seq![digit_char(d as nat)],
{
    proof {
        reveal_strlit("0"); reveal_strlit("1"); reveal_strlit("2"); reveal_strlit("3");
        reveal_strlit("4"); reveal_strlit("5"); reveal_strlit("6"); reveal_strlit("7");
        reveal_strlit("8"); reveal_strlit("9");
    }
    if d == 0 { assert("0"@ =~= seq!['0']); "0" }
    else if d == 1 { assert("1"@ =~= seq!['1']); "1" }
    else if d == 2 { assert("2"@ =~= seq!['2']); "2" }
    else if d == 3 { assert("3"@ =~= seq!['3']); "3" }
    else if d == 4 { assert("4"@ =~= seq!['4']); "4" }
    else if d == 5 { assert("5"@ =~= seq!['5']); "5" }
    else if d == 6 { assert("6"@ =~= seq!['6']); "6" }
    else if d == 7 { assert("7"@ =~= seq!['7']); "7" }
    else if d == 8 { assert("8"@ =~= seq!['8']); "8" }
    else { assert("9"@ =~= seq!['9']); "9" }
}

/// The decimal numeral of `n`.
pub fn nat_str(n: u64) -> (r: String)
    ensures r@ == nat_digits(n as nat),
    decreases n,
{
    if n < 10 {
        owned(digit_str(n))
    } else {
        let mut s = nat_str(n / 10);
        s.append(digit_str(n % 10));
        s
    }
}

/// The decimal numeral of `n`, with a leading minus sign when negative.
pub fn int_str(n: i64) -> (r: String)
    ensures r@ == int_digits(n as int),
{
    if n < 0 {
        let m: u64 = if n == i64::MIN { 9223372036854775808u64 } else { (-n) as u64 };
        let mut s = owned("-");
        proof { reveal_strlit("-"); }
        s.append(nat_str(m).as_str());
        assert(s@ =~= seq!['-'] + nat_digits((-(n as int)) as nat));
        s
    } else {
        nat_str(n as u64)
    }
}

pub open spec fn is_digit(c: char) -> bool {
    '0' <= c && c <= '9'
}

pub open spec fn all_digits(s: Seq<char>) -> bool {
    forall|i: int| 0 <= i < s.len() ==> is_digit(#[trigger] s[i])
}

/// The value of a sequence of decimal digits.
pub open spec fn digits_value(s: Seq<char>) -> int
    decreases s.len(),
{
    if s.len() == 0 {
        0
    } else {
        digits_value(s.drop_last()) * 10 + ((s.last() as int) - ('0' as int))
    }
}

/// The integer that `str::parse::<i64>` reads from `s`, ignoring the range of i64:
/// an optional sign followed by at least one decimal digit.
pub open spec fn numeral_value(s: Seq<char>) -> Option<int> {
    if s.len() > 0 && (s[0] == '-' || s[0] == '+') {
        let rest = s.drop_first();
        if rest.len() > 0 && all_digits(rest) {
            if s[0] == '-' { Some(-digits_value(rest)) } else { Some(digits_value(rest)) }
        } else {
            None
        }
    } else if s.len() > 0 && all_digits(s) {
        Some(digits_value(s))
    } else {
        None
    }
}

/// What `str::parse::<i64>` returns on `s`.
pub open spec fn parse_i64_spec(s: Seq<char>) -> Option<i64> {
    match numeral_value(s) {
        Some(v) => if i64::MIN <= v <= i64::MAX { Some(v as i64) } else { None },
        None => None,
    }
}

proof fn lemma_digits_nonneg(s: Seq<char>)
    requires all_digits(s),
    ensures digits_value(s) >= 0,
    decreases s.len(),
{
    if s.len() > 0 {
        lemma_digits_nonneg(s.drop_last());
    }
}

proof fn lemma_digits_value_step(s: Seq<char>, i: int)
    requires 0 <= i < s.len(),
    ensures digits_value(s.take(i + 1)) == digits_value(s.take(i)) * 10 + ((s[i] as int) - ('0' as int)),
{
    assert(s.take(i + 1).drop_last() =~= s.take(i));
    assert(s.take(i + 1).last() == s[i]);
}

/// Reads a decimal integer with an optional sign, as `str::parse::<i64>` does.
#[verifier::loop_isolation(false)]
pub fn parse_i64(s: &str) -> (r: Option<i64>)
    ensures r == parse_i64_spec(s@),
{
    let n = s.unicode_len();
    if n == 0 {
        return None;
    }
    let c0 = s.get_char(0);
    let start: usize = if c0 == '-' || c0 == '+' { 1 } else { 0 };
    if start == n {
        return None;
    }
    let ghost rest = s@.skip(start as int);
    assert(s@.skip(0) =~= s@);
    let mut acc: u64 = 0;
    let mut big = false;
    let mut i: usize = start;
    while i < n
        invariant
            n == s@.len(), start <= i <= n, start < n,
            rest == s@.skip(start as int),
            forall|j: int| 0 <= j < i - start ==> is_digit(#[trigger] rest[j]),
            !big ==> acc == digits_value(rest.take(i - start)),
            !big ==> acc <= 9223372036854775808,
            big ==> digits_value(rest.take(i - start)) > 9223372036854775808,
        decreases n - i,
    {
        let c = s.get_char(i);
        if !('0' <= c && c <= '9') {
            proof {
                assert(!is_digit(rest[i - start]));
                if start == 1 {
                    assert(rest =~= s@.drop_first());
                } else {
                    assert(rest =~= s@);
                }
            }
            return None;
        }
        proof { lemma_digits_value_step(rest, i - start); }
        let d = (c as u32 - '0' as u32) as u64;
        proof {
            let prev = digits_value(rest.take(i - start));
            lemma_digits_nonneg(rest.take(i - start));
            assert(prev * 10 >= prev) by (nonlinear_arith) requires prev >= 0;
            if !big {
                assert(acc <= 922337203685477580 ==> acc * 10 + d <= 9223372036854775809) by (nonlinear_arith)
                    requires d < 10;
                assert(acc > 922337203685477580 ==> prev * 10 + d > 9223372036854775808) by (nonlinear_arith)
                    requires acc > 922337203685477580 ==> prev == acc, d >= 0;
            }
        }
        if !big {
            if acc > 922337203685477580 {
                big = true;
            } else {
                acc = acc * 10 + d;
                if acc > 9223372036854775808 {
                    big = true;
                }
            }
        }
        i += 1;
    }
    proof {
        assert(rest.take(n - start) =~= rest);
        assert(all_digits(rest));
        if start == 1 {
            assert(rest =~= s@.drop_first());
        } else {
            assert(rest =~= s@);
        }
    }
    if big {
        return None;
    }
    if start == 1 && c0 == '-' {
        if acc == 9223372036854775808 {
            Some(i64::MIN)
        } else {
            let v = acc as i64;
            Some(-v)
        }
    } else {
        if acc > 9223372036854775807 { None } else { Some(acc as i64) }
    }
}


pub proof fn lemma_to_set_push<A>(s: Seq<A>, x: A)
    ensures s.push(x).to_set() == s.to_set().insert(x),
{
    assert forall|y: A| s.push(x).to_set().contains(y) <==> s.to_set().insert(x).contains(y) by {
        if s.push(x).contains(y) {
            let k = choose|k: int| 0 <= k < s.push(x).len() && s.push(x)[k] == y;
            if k < s.len() {
                assert(s[k] == y);
            }
        }
        if s.contains(y) {
            let k = choose|k: int| 0 <= k < s.len() && s[k] == y;
            assert(s.push(x)[k] == y);
        }
        if y == x {
            assert(s.push(x)[s.len() as int] == y);
        }
    }
    assert(s.push(x).to_set() =~= s.to_set().insert(x));
}

/// The strictly ascending listing of a finite set of character sequences.
pub open spec fn sorted_listing(s: Set<Seq<char>>) -> Seq<Seq<char>> {
    choose|q: Seq<Seq<char>>| strictly_sorted(q) && q.to_set() == s
}

/// Two strictly ascending sequences with the same elements are equal.
pub proof fn lemma_sorted_unique(a: Seq<Seq<char>>, b: Seq<Seq<char>>)
    requires strictly_sorted(a), strictly_sorted(b), a.to_set() == b.to_set(),
    ensures a == b,
    decreases a.len(),
{
    if a.len() == 0 {
        if b.len() > 0 {
            assert(b.to_set().contains(b[0]));
        }
        assert(a =~= b);
    } else {
        assert(a.to_set().contains(a[0]));
        assert(b.len() > 0);
        assert(b.to_set().contains(b[0]));
        let j = choose|j: int| 0 <= j < b.len() && b[j] == a[0];
        let k = choose|k: int| 0 <= k < a.len() && a[k] == b[0];
        if j > 0 {
            assert(lex_lt(b[0], b[j]));
            if k > 0 {
                assert(lex_lt(a[0], a[k]));
                lemma_lex_asym(a[0], a[k]);
            } else {
                lemma_lex_irrefl(a[0]);
            }
        }
        assert(a[0] == b[0]);
        let a1 = a.drop_first();
        let b1 = b.drop_first();
        assert forall|x: Seq<char>| a1.to_set().contains(x) <==> b1.to_set().contains(x) by {
            if a1.contains(x) {
                let p = choose|p: int| 0 <= p < a1.len() && a1[p] == x;
                assert(a[p + 1] == x);
                assert(lex_lt(a[0], x));
                lemma_lex_asym(a[0], x);
                assert(a.to_set().contains(x));
                let q = choose|q: int| 0 <= q < b.len() && b[q] == x;
                assert(q != 0);
                assert(b1[q - 1] == x);
            }
            if b1.contains(x) {
                let p = choose|p: int| 0 <= p < b1.len() && b1[p] == x;
                assert(b[p + 1] == x);
                assert(lex_lt(b[0], x));
                lemma_lex_asym(b[0], x);
                assert(b.to_set().contains(x));
                let q = choose|q: int| 0 <= q < a.len() && a[q] == x;
                assert(q != 0);
                assert(a1[q - 1] == x);
            }
        }
        assert(a1.to_set() =~= b1.to_set());
        lemma_sorted_unique(a1, b1);
        assert(a =~= seq![a[0]] + a1);
        assert(b =~= seq![b[0]] + b1);
    }
}

/// A strictly ascending sequence is the listing of its elements.
pub proof fn lemma_sorted_listing(q: Seq<Seq<char>>)
    requires strictly_sorted(q),
    ensures sorted_listing(q.to_set()) == q,
{
    let r = sorted_listing(q.to_set());
    assert(strictly_sorted(q) && q.to_set() == q.to_set());
    lemma_sorted_unique(r, q);
}

/// Removes `name` from a strictly ascending vector.
pub fn remove_name(v: &mut Vec<String>, name: &str)
    requires strictly_sorted(strings_view(old(v)@)),
    ensures
        strictly_sorted(strings_view(final(v)@)),
        strings_view(final(v)@).to_set() == strings_view(old(v)@).to_set().remove(name@),
{
    let ghost ov = strings_view(v@);
    let mut out: Vec<String> = Vec::new();
    let mut i: usize = 0;
    while i < v.len()
        invariant
            i <= v.len(),
            ov == strings_view(v@),
            strictly_sorted(ov),
            strictly_sorted(strings_view(out@)),
            forall|k: int| 0 <= k < out@.len() ==> exists|j: int| 0 <= j < i && #[trigger] ov[j] == #[trigger] strings_view(out@)[k],
            strings_view(out@).to_set() == ov.take(i as int).to_set().remove(name@),
        decreases v.len() - i,
    {
        let ghost ob = strings_view(out@);
        proof {
            assert(ov.take(i + 1) =~= ov.take(i as int).push(ov[i as int]));
        }
        if !str_eq(v[i].as_str(), name) {
            let c = v[i].clone();
            out.push(c);
            proof {
                let nb = strings_view(out@);
                assert(nb =~= ob.push(ov[i as int]));
                assert forall|a: int, b: int| 0 <= a < b < nb.len() implies lex_lt(#[trigger] nb[a], #[trigger] nb[b]) by {
                    if b == nb.len() - 1 {
                        let j = choose|j: int| 0 <= j < i && ov[j] == ob[a];
                        assert(lex_lt(ov[j], ov[i as int]));
                    } else {
                        assert(nb[a] == ob[a] && nb[b] == ob[b]);
                    }
                }
                assert forall|k: int| 0 <= k < nb.len() implies exists|j: int| 0 <= j < i + 1 && #[trigger] ov[j] == #[trigger] nb[k] by {
                    if k == nb.len() - 1 {
                        assert(ov[i as int] == nb[k]);
                    } else {
                        let j = choose|j: int| 0 <= j < i && ov[j] == ob[k];
                        assert(ov[j] == nb[k]);
                    }
                }
                lemma_to_set_push(ob, ov[i as int]);
                lemma_to_set_push(ov.take(i as int), ov[i as int]);
                assert(nb.to_set() =~= ov.take(i + 1).to_set().remove(name@));
            }
        } else {
            proof {
                lemma_to_set_push(ov.take(i as int), ov[i as int]);
                assert(ov[i as int] == name@);
                assert(ob.to_set() =~= ov.take(i + 1).to_set().remove(name@));
            }
        }
        i += 1;
    }
    proof { assert(ov.take(i as int) =~= ov); }
    *v = out;
}

} // verus!
