use vstd::prelude::*;

verus! {

/// Lexicographic order of `a[i..]` and `b[i..]` by character code.
pub open spec fn lt_from(a: Seq<char>, b: Seq<char>, i: int) -> bool
    decreases a.len() - i,
{
    if i < 0 || i >= a.len() {
        0 <= i < b.len()
    } else if i >= b.len() {
        false
    } else if a[i] != b[i] {
        a[i] < b[i]
    } else {
        lt_from(a, b, i + 1)
    }
}

/// Whether `a` sorts strictly before `b`.
pub open spec fn text_lt(a: Seq<char>, b: Seq<char>) -> bool {
    lt_from(a, b, 0)
}

proof fn lemma_lt_from_irrefl(a: Seq<char>, i: int)
    requires
        0 <= i,
    ensures
        !lt_from(a, a, i),
    decreases a.len() - i,
{
    if i < a.len() {
        lemma_lt_from_irrefl(a, i + 1);
    }
}

proof fn lemma_lt_from_total(a: Seq<char>, b: Seq<char>, i: int)
    requires
        0 <= i,
        i <= a.len(),
        i <= b.len(),
        a.subrange(0, i) == b.subrange(0, i),
        a != b,
    ensures
        lt_from(a, b, i) || lt_from(b, a, i),
    decreases a.len() - i,
{
    if i < a.len() && i < b.len() && a[i] == b[i] {
        assert(a.subrange(0, i + 1) =~= a.subrange(0, i).push(a[i]));
        assert(b.subrange(0, i + 1) =~= b.subrange(0, i).push(b[i]));
        lemma_lt_from_total(a, b, i + 1);
    } else if i == a.len() && i == b.len() {
        assert(a =~= a.subrange(0, i));
        assert(b =~= b.subrange(0, i));
    }
}

proof fn lemma_lt_from_trans(a: Seq<char>, b: Seq<char>, c: Seq<char>, i: int)
    requires
        0 <= i,
        lt_from(a, b, i),
        lt_from(b, c, i),
    ensures
        lt_from(a, c, i),
    decreases a.len() - i,
{
    if i < a.len() && i < b.len() && i < c.len() && a[i] == b[i] && b[i] == c[i] {
        lemma_lt_from_trans(a, b, c, i + 1);
    }
}

/// `<` on texts is a strict total order.
pub proof fn lemma_text_lt_order(a: Seq<char>, b: Seq<char>, c: Seq<char>)
    ensures
        !text_lt(a, a),
        a != b ==> text_lt(a, b) || text_lt(b, a),
        text_lt(a, b) && text_lt(b, c) ==> text_lt(a, c),
{
    lemma_lt_from_irrefl(a, 0);
    if a != b {
        assert(a.subrange(0, 0) =~= b.subrange(0, 0));
        lemma_lt_from_total(a, b, 0);
    }
    if text_lt(a, b) && text_lt(b, c) {
        lemma_lt_from_trans(a, b, c, 0);
    }
}

/// Whether `a` sorts strictly before `b`.
pub fn text_less(a: &str, b: &str) -> (r: bool)
    ensures
        r == text_lt(a@, b@),
{
    let n = a.unicode_len();
    let m = b.unicode_len();
    let mut i: usize = 0;
    while i < n && i < m && a.get_char(i) == b.get_char(i)
        invariant
            n == a@.len(),
            m == b@.len(),
            i <= n,
            i <= m,
            lt_from(a@, b@, 0) == lt_from(a@, b@, i as int),
        decreases n - i,
    {
        i = i + 1;
    }
    if i == n {
        i < m
    } else if i == m {
        false
    } else {
        a.get_char(i) < b.get_char(i)
    }
}

} // verus!
