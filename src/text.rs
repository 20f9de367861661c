use vstd::prelude::*;

verus! {

/// Whether `c` is one of the ASCII whitespace characters.
pub open spec fn is_ws(c: char) -> bool {
    c == ' ' || c == '\t' || c == '\n' || c == '\r' || c == '\x0B' || c == '\x0C'
}

pub fn is_ws_exec(c: char) -> (r: bool)
    ensures
        r == is_ws(c),
{
    c == ' ' || c == '\t' || c == '\n' || c == '\r' || c == '\x0B' || c == '\x0C'
}

/// Character-wise equality of two strings.
pub fn text_eq(a: &str, b: &str) -> (r: bool)
    ensures
        r == (a@ == b@),
{
    let n = a.unicode_len();
    let m = b.unicode_len();
    if n != m {
        return false;
    }
    let mut i: usize = 0;
    while i < n
        invariant
            n == a@.len(),
            m == b@.len(),
            n == m,
            i <= n,
            forall|k: int| 0 <= k < i ==> a@[k] == b@[k],
        decreases n - i,
    {
        if a.get_char(i) != b.get_char(i) {
            return false;
        }
        i = i + 1;
    }
    proof {
        assert(a@ =~= b@);
    }
    true
}

/// A new owned string holding the characters of `s`.
pub fn owned(s: &str) -> (r: String)
    ensures
        r@ == s@,
{
    String::from_str(s)
}

/// `a` followed by `b`, as a new string.
pub fn join2(a: &str, b: &str) -> (r: String)
    ensures
        r@ == a@ + b@,
{
    let mut r = String::from_str(a);
    r.append(b);
    r
}

/// Index of the first non-whitespace character at or after `i`.
pub open spec fn skip_ws(s: Seq<char>, i: int) -> int
    decreases s.len() - i,
{
    if 0 <= i < s.len() && is_ws(s[i]) {
        skip_ws(s, i + 1)
    } else {
        i
    }
}

/// End of `s[lo..j]` once trailing whitespace is dropped.
pub open spec fn back_ws(s: Seq<char>, lo: int, j: int) -> int
    decreases j - lo,
{
    if lo < j && j <= s.len() && is_ws(s[j - 1]) {
        back_ws(s, lo, j - 1)
    } else {
        j
    }
}

/// `s` without leading and trailing whitespace.
pub open spec fn trim(s: Seq<char>) -> Seq<char> {
    s.subrange(skip_ws(s, 0), back_ws(s, skip_ws(s, 0), s.len() as int))
}

proof fn lemma_skip_ws_bounds(s: Seq<char>, i: int)
    requires
        0 <= i <= s.len(),
    ensures
        i <= skip_ws(s, i) <= s.len(),
    decreases s.len() - i,
{
    if i < s.len() && is_ws(s[i]) {
        lemma_skip_ws_bounds(s, i + 1);
    }
}

/// `s[from..to]` without leading and trailing whitespace, as a new string.
pub fn trim_range(s: &str, from: usize, to: usize) -> (r: String)
    requires
        from <= to <= s@.len(),
    ensures
        r@ == trim(s@.subrange(from as int, to as int)),
{
    let ghost t = s@.subrange(from as int, to as int);
    let mut i: usize = from;
    while i < to && is_ws_exec(s.get_char(i))
        invariant
            from <= i <= to <= s@.len(),
            t == s@.subrange(from as int, to as int),
            skip_ws(t, 0) == skip_ws(t, i - from),
        decreases to - i,
    {
        i = i + 1;
    }
    proof {
        lemma_skip_ws_bounds(t, 0);
        assert(skip_ws(t, (i - from) as int) == (i - from) as int);
    }
    let mut j: usize = to;
    while j > i && is_ws_exec(s.get_char(j - 1))
        invariant
            from <= i <= j <= to <= s@.len(),
            t == s@.subrange(from as int, to as int),
            skip_ws(t, 0) == i - from,
            back_ws(t, i - from, t.len() as int) == back_ws(t, i - from, j - from),
        decreases j - i,
    {
        j = j - 1;
    }
    proof {
        assert(back_ws(t, i - from, (j - from) as int) == (j - from) as int);
        assert(s@.subrange(i as int, j as int) =~= t.subrange(i - from, j - from));
    }
    owned(s.substring_char(i, j))
}

/// A copy of a string.
pub fn clone_text(s: &String) -> (r: String)
    ensures
        r@ == s@,
{
    owned(s.as_str())
}

/// A copy of a list of strings.
pub fn clone_strings(v: &Vec<String>) -> (r: Vec<String>)
    ensures
        crate::sections::strings_view(r@) == crate::sections::strings_view(v@),
{
    let mut r: Vec<String> = Vec::new();
    let mut i: usize = 0;
    while i < v.len()
        invariant
            i <= v@.len(),
            r@.len() == i,
            forall|k: int| 0 <= k < i ==> #[trigger] r@[k]@ == v@[k]@,
        decreases v@.len() - i,
    {
        r.push(clone_text(&v[i]));
        i = i + 1;
    }
    proof {
        assert(crate::sections::strings_view(r@) =~= crate::sections::strings_view(v@));
    }
    r
}

} // verus!
