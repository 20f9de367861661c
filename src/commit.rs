use vstd::prelude::*;

use crate::sections::{resolve, strings_view, unknown_name, SectionMap};
use crate::text::{owned, trim, trim_range};

verus! {

/// Largest `q` with `lo < q <= hi` where `s[q]` is ')' and `s[q + 1]` is ':';
/// -1 when there is none.
pub open spec fn last_close(s: Seq<char>, lo: int, hi: int) -> int
    decreases hi - lo,
{
    if hi <= lo {
        -1
    } else if 0 <= hi && hi + 1 < s.len() && s[hi] == ')' && s[hi + 1] == ':' {
        hi
    } else {
        last_close(s, lo, hi - 1)
    }
}

/// Whether a subject line can split at `p`: a "(component)" group closed by
/// "):" starts there, or the ':' itself stands there.
pub open spec fn splits_at(s: Seq<char>, p: int) -> bool {
    (s[p] == '(' && last_close(s, p, s.len() - 2) >= 0) || s[p] == ':'
}

/// The first position from `p` on where a subject line splits; -1 if none.
pub open spec fn split_from(s: Seq<char>, p: int) -> int
    decreases s.len() - p,
{
    if p < 0 || p >= s.len() {
        -1
    } else if splits_at(s, p) {
        p
    } else {
        split_from(s, p + 1)
    }
}

/// Where the type ends in a conventional subject line; -1 if it has none.
pub open spec fn type_end(s: Seq<char>) -> int {
    split_from(s, 0)
}

/// Whether the line has the shape `type(component): text` or `type: text`.
pub open spec fn is_conventional(s: Seq<char>) -> bool {
    type_end(s) >= 0
}

/// Whether the conventional line carries a "(component)" group.
pub open spec fn has_component(s: Seq<char>) -> bool {
    s[type_end(s)] == '('
}

/// Position of the ')' that closes the component group.
pub open spec fn group_close(s: Seq<char>) -> int {
    last_close(s, type_end(s), s.len() - 2)
}

/// The commit type of a conventional line: everything before the split.
pub open spec fn type_text(s: Seq<char>) -> Seq<char> {
    s.subrange(0, type_end(s))
}

/// The component of a conventional line, trimmed; empty without a group.
pub open spec fn component_text(s: Seq<char>) -> Seq<char> {
    if has_component(s) {
        trim(s.subrange(type_end(s) + 1, group_close(s)))
    } else {
        Seq::empty()
    }
}

/// `r` without the one space that may open it.
pub open spec fn drop_space(r: Seq<char>) -> Seq<char> {
    if r.len() > 0 && r[0] == ' ' {
        r.drop_first()
    } else {
        r
    }
}

/// The description of a conventional line: the rest of the line after the
/// ':', less the one space that may follow it.
pub open spec fn subject_text(s: Seq<char>) -> Seq<char> {
    if has_component(s) {
        drop_space(s.subrange(group_close(s) + 2, s.len() as int))
    } else {
        drop_space(s.subrange(type_end(s) + 1, s.len() as int))
    }
}

/// `s[from..]` without the one space that may open it, as a new string.
fn rest_after(s: &str, from: usize) -> (r: String)
    requires
        from <= s@.len(),
    ensures
        r@ == drop_space(s@.subrange(from as int, s@.len() as int)),
{
    let n = s.unicode_len();
    let start = if from < n && s.get_char(from) == ' ' { from + 1 } else { from };
    proof {
        if from < n && s@[from as int] == ' ' {
            assert(s@.subrange(from as int, n as int).drop_first() =~= s@.subrange(start as int, n as int));
        }
    }
    owned(s.substring_char(start, n))
}

proof fn lemma_last_close_range(s: Seq<char>, lo: int, hi: int)
    ensures
        last_close(s, lo, hi) == -1 || (lo < last_close(s, lo, hi) <= hi && last_close(s, lo, hi)
            + 1 < s.len() && 0 <= last_close(s, lo, hi) && s[last_close(s, lo, hi)] == ')' && s[last_close(s, lo, hi) + 1] == ':'),
    decreases hi - lo,
{
    if hi > lo {
        lemma_last_close_range(s, lo, hi - 1);
    }
}

/// Position of the ')' of a "):" pair after `lo`, the last one in `s`.
fn find_last_close(s: &str, lo: usize) -> (r: Option<usize>)
    ensures
        match r {
            Some(q) => q as int == last_close(s@, lo as int, s@.len() - 2),
            None => last_close(s@, lo as int, s@.len() - 2) == -1,
        },
{
    let n = s.unicode_len();
    if n < 2 {
        return None;
    }
    let mut q: usize = n - 2;
    while q > lo
        invariant
            n == s@.len(),
            n >= 2,
            q <= n - 2,
            last_close(s@, lo as int, s@.len() - 2) == last_close(s@, lo as int, q as int),
        decreases q,
    {
        if s.get_char(q) == ')' && s.get_char(q + 1) == ':' {
            return Some(q);
        }
        q = q - 1;
    }
    None
}

/// Splits a conventional subject line into its type, its trimmed component
/// (empty without a group) and its trimmed description; `None` when the line
/// has no ':' to split at.
pub fn parse_subject_line(line: &str) -> (r: Option<(String, String, String)>)
    ensures
        r is Some <==> is_conventional(line@),
        r matches Some(t) ==> (t.0@ == type_text(line@) && t.1@ == component_text(line@) && t.2@
            == subject_text(line@)),
{
    let n = line.unicode_len();
    let mut p: usize = 0;
    while p < n
        invariant
            n == line@.len(),
            p <= n,
            type_end(line@) == split_from(line@, p as int),
        decreases n - p,
    {
        let c = line.get_char(p);
        if c == '(' {
            if let Some(q) = find_last_close(line, p) {
                proof {
                    lemma_last_close_range(line@, p as int, line@.len() - 2);
                }
                let ty = owned(line.substring_char(0, p));
                let component = trim_range(line, p + 1, q);
                let subject = rest_after(line, q + 2);
                return Some((ty, component, subject));
            }
        }
        if c == ':' {
            let ty = owned(line.substring_char(0, p));
            let subject = rest_after(line, p + 1);
            let component = owned("");
            proof {
                reveal_strlit("");
                assert(component@ =~= Seq::<char>::empty());
            }
            return Some((ty, component, subject));
        }
        p = p + 1;
    }
    None
}


pub open spec fn is_digit(c: char) -> bool {
    '0' <= c <= '9'
}

/// Whether `w` stands in `s` at position `i`.
pub open spec fn word_at(s: Seq<char>, i: int, w: Seq<char>) -> bool {
    0 <= i && i + w.len() <= s.len() && s.subrange(i, i + w.len()) == w
}

/// Length of the issue-closing keyword (Closes, Fixes or Resolves) that
/// stands at `i`; 0 if none does.
pub open spec fn keyword_len(s: Seq<char>, i: int) -> int {
    if word_at(s, i, "Closes"@) {
        "Closes"@.len() as int
    } else if word_at(s, i, "Fixes"@) {
        "Fixes"@.len() as int
    } else if word_at(s, i, "Resolves"@) {
        "Resolves"@.len() as int
    } else {
        0
    }
}

/// End of the run of digits that starts at `j`.
pub open spec fn digits_end(s: Seq<char>, j: int) -> int
    decreases s.len() - j,
{
    if 0 <= j < s.len() && is_digit(s[j]) {
        digits_end(s, j + 1)
    } else {
        j
    }
}

/// Whether an issue reference `#<digits>` starts at `j`.
pub open spec fn starts_ref(s: Seq<char>, j: int) -> bool {
    0 <= j && j + 1 < s.len() && s[j] == '#' && is_digit(s[j + 1])
}

/// Where the reference after the one starting at `j` would begin: past its
/// digits, and past a ',' and the whitespace after it if one follows.
pub open spec fn next_ref(s: Seq<char>, j: int) -> int {
    let e = digits_end(s, j + 1);
    if 0 <= e < s.len() && s[e] == ',' {
        crate::text::skip_ws(s, e + 1)
    } else {
        e
    }
}

/// The numbers of the run of references `#12, #34` that starts at `j`.
pub open spec fn ref_numbers(s: Seq<char>, j: int) -> Seq<Seq<char>>
    decreases s.len() - j,
{
    if !starts_ref(s, j) {
        Seq::empty()
    } else {
        let head = seq![s.subrange(j + 1, digits_end(s, j + 1))];
        let n = next_ref(s, j);
        if j < n <= s.len() {
            head + ref_numbers(s, n)
        } else {
            head
        }
    }
}

/// The issue numbers closed by a keyword match that starts at `i`: the
/// keyword, at least one whitespace character, then a run of references.
pub open spec fn match_numbers(s: Seq<char>, i: int) -> Seq<Seq<char>> {
    let k = keyword_len(s, i);
    if k > 0 && crate::text::skip_ws(s, i + k) > i + k {
        ref_numbers(s, crate::text::skip_ws(s, i + k))
    } else {
        Seq::empty()
    }
}

/// Every issue number closed in `s` from position `i` on, in order.
pub open spec fn line_refs(s: Seq<char>, i: int) -> Seq<Seq<char>>
    decreases s.len() - i,
{
    if 0 <= i < s.len() {
        match_numbers(s, i) + line_refs(s, i + 1)
    } else {
        Seq::empty()
    }
}

fn digits_end_exec(s: &str, j: usize) -> (r: usize)
    requires
        j <= s@.len(),
    ensures
        r as int == digits_end(s@, j as int),
        j <= r <= s@.len(),
{
    let n = s.unicode_len();
    let mut e: usize = j;
    while e < n && '0' <= s.get_char(e) && s.get_char(e) <= '9'
        invariant
            n == s@.len(),
            j <= e <= n,
            digits_end(s@, j as int) == digits_end(s@, e as int),
        decreases n - e,
    {
        e = e + 1;
    }
    e
}

fn skip_ws_exec(s: &str, i: usize) -> (r: usize)
    requires
        i <= s@.len(),
    ensures
        r as int == crate::text::skip_ws(s@, i as int),
        i <= r <= s@.len(),
{
    let n = s.unicode_len();
    let mut e: usize = i;
    while e < n && crate::text::is_ws_exec(s.get_char(e))
        invariant
            n == s@.len(),
            i <= e <= n,
            crate::text::skip_ws(s@, i as int) == crate::text::skip_ws(s@, e as int),
        decreases n - e,
    {
        e = e + 1;
    }
    e
}

fn word_at_exec(s: &str, i: usize, w: &str) -> (r: bool)
    requires
        i <= s@.len(),
    ensures
        r == word_at(s@, i as int, w@),
{
    let n = s.unicode_len();
    let m = w.unicode_len();
    if m > n - i {
        return false;
    }
    let mut k: usize = 0;
    while k < m
        invariant
            n == s@.len(),
            m == w@.len(),
            i + m <= n,
            k <= m,
            forall|l: int| 0 <= l < k ==> s@[i + l] == w@[l],
        decreases m - k,
    {
        if s.get_char(i + k) != w.get_char(k) {
            proof {
                assert(s@.subrange(i as int, i + m)[k as int] != w@[k as int]);
            }
            return false;
        }
        k = k + 1;
    }
    proof {
        assert(s@.subrange(i as int, i + m) =~= w@);
    }
    true
}

fn keyword_len_exec(s: &str, i: usize) -> (r: usize)
    requires
        i <= s@.len(),
    ensures
        r as int == keyword_len(s@, i as int),
        i + r <= s@.len(),
{
    if word_at_exec(s, i, "Closes") {
        "Closes".unicode_len()
    } else if word_at_exec(s, i, "Fixes") {
        "Fixes".unicode_len()
    } else if word_at_exec(s, i, "Resolves") {
        "Resolves".unicode_len()
    } else {
        0
    }
}

/// Appends the numbers of the run of references that starts at `j0`.
fn collect_refs(s: &str, j0: usize, out: &mut Vec<String>)
    requires
        j0 <= s@.len(),
    ensures
        crate::sections::strings_view(final(out)@) == crate::sections::strings_view(old(out)@)
            + ref_numbers(s@, j0 as int),
{
    let n = s.unicode_len();
    let mut j: usize = j0;
    let mut done = false;
    while !done
        invariant
            n == s@.len(),
            j <= n,
            done ==> crate::sections::strings_view(out@) == crate::sections::strings_view(old(out)@)
                + ref_numbers(s@, j0 as int),
            !done ==> crate::sections::strings_view(out@) + ref_numbers(s@, j as int)
                == crate::sections::strings_view(old(out)@) + ref_numbers(s@, j0 as int),
        decreases n - j + (if done { 0int } else { 1int }),
    {
        let ghost before = crate::sections::strings_view(out@);
        if j < n && j + 1 < n && s.get_char(j) == '#' && '0' <= s.get_char(j + 1) && s.get_char(j + 1) <= '9' {
            let e = digits_end_exec(s, j + 1);
            let num = owned(s.substring_char(j + 1, e));
            out.push(num);
            let mut nx: usize = e;
            if e < n && s.get_char(e) == ',' {
                nx = skip_ws_exec(s, e + 1);
            }
            proof {
                assert(crate::sections::strings_view(out@) =~= before.push(num@));
                assert(nx as int == next_ref(s@, j as int));
            }
            if j < nx {
                proof {
                    assert(before + ref_numbers(s@, j as int) =~= before.push(num@) + ref_numbers(s@, nx as int));
                }
                j = nx;
            } else {
                proof {
                    assert(before + ref_numbers(s@, j as int) =~= before.push(num@));
                }
                done = true;
            }
        } else {
            proof {
                assert(before + ref_numbers(s@, j as int) =~= before);
            }
            done = true;
        }
    }
}

/// Appends every issue number that `line` closes, in order.
pub fn collect_line_refs(line: &str, out: &mut Vec<String>)
    ensures
        crate::sections::strings_view(final(out)@) == crate::sections::strings_view(old(out)@)
            + line_refs(line@, 0),
{
    let n = line.unicode_len();
    let mut i: usize = 0;
    while i < n
        invariant
            n == line@.len(),
            i <= n,
            crate::sections::strings_view(out@) + line_refs(line@, i as int)
                == crate::sections::strings_view(old(out)@) + line_refs(line@, 0),
        decreases n - i,
    {
        let ghost before = crate::sections::strings_view(out@);
        let k = keyword_len_exec(line, i);
        if k > 0 {
            let j = skip_ws_exec(line, i + k);
            if j > i + k {
                collect_refs(line, j, out);
            }
        }
        proof {
            assert(crate::sections::strings_view(out@) == before + match_numbers(line@, i as int));
            assert(line_refs(line@, i as int) == match_numbers(line@, i as int) + line_refs(line@, i + 1));
            assert(before + line_refs(line@, i as int) =~= crate::sections::strings_view(out@) + line_refs(line@, i + 1));
        }
        i = i + 1;
    }
    proof {
        assert(crate::sections::strings_view(out@) =~= crate::sections::strings_view(out@) + line_refs(line@, n as int));
    }
}


/// End of the line that starts at `i`: the next '\n', or the end of `s`.
pub open spec fn line_end(s: Seq<char>, i: int) -> int
    decreases s.len() - i,
{
    if 0 <= i < s.len() && s[i] != '\n' {
        line_end(s, i + 1)
    } else {
        i
    }
}

/// The '\n'-separated lines of `s` from position `i` on.
pub open spec fn lines_from(s: Seq<char>, i: int) -> Seq<Seq<char>>
    decreases s.len() + 1 - i,
{
    if i < 0 || i > s.len() {
        Seq::empty()
    } else {
        let e = line_end(s, i);
        if i <= e < s.len() {
            seq![s.subrange(i, e)] + lines_from(s, e + 1)
        } else {
            seq![s.subrange(i, s.len() as int)]
        }
    }
}

/// The '\n'-separated lines of `s`; an empty text is one empty line.
pub open spec fn lines(s: Seq<char>) -> Seq<Seq<char>> {
    lines_from(s, 0)
}

/// Issue numbers closed in the lines of `ls` from the `k`-th on.
pub open spec fn body_refs(ls: Seq<Seq<char>>, k: int) -> Seq<Seq<char>>
    decreases ls.len() - k,
{
    if 0 <= k < ls.len() {
        line_refs(ls[k], 0) + body_refs(ls, k + 1)
    } else {
        Seq::empty()
    }
}

/// Whether a body line carries the breaking-change marker.
pub open spec fn is_breaking_line(l: Seq<char>) -> bool {
    word_at(l, 0, "BREAKING"@)
}

/// The lines of `ls` from the `k`-th on that carry the breaking-change marker.
pub open spec fn body_breaks(ls: Seq<Seq<char>>, k: int) -> Seq<Seq<char>>
    decreases ls.len() - k,
{
    if 0 <= k < ls.len() {
        if is_breaking_line(ls[k]) {
            seq![ls[k]] + body_breaks(ls, k + 1)
        } else {
            body_breaks(ls, k + 1)
        }
    } else {
        Seq::empty()
    }
}

/// The subject line of a raw commit: its second line, empty if missing.
pub open spec fn subject_line(ls: Seq<Seq<char>>) -> Seq<char> {
    if ls.len() > 1 {
        ls[1]
    } else {
        Seq::empty()
    }
}

/// A commit record as plain values.
pub struct CommitView {
    pub hash: Seq<char>,
    pub subject: Seq<char>,
    pub component: Seq<char>,
    pub closes: Seq<Seq<char>>,
    pub breaks: Seq<Seq<char>>,
    pub commit_type: Seq<char>,
}

/// The record that a raw commit block `<hash>\n<subject>\n<body...>` yields
/// under the alias table `secs`.
pub open spec fn parsed_commit(secs: Seq<crate::sections::SectionView>, s: Seq<char>) -> CommitView {
    let ls = lines(s);
    let subj = subject_line(ls);
    CommitView {
        hash: ls[0],
        subject: if is_conventional(subj) { subject_text(subj) } else { subj },
        component: if is_conventional(subj) { component_text(subj) } else { Seq::empty() },
        closes: body_refs(ls, 2),
        breaks: body_breaks(ls, 2),
        commit_type: if is_conventional(subj) { resolve(secs, type_text(subj)) } else { unknown_name() },
    }
}

/// One parsed commit.
#[derive(Debug, Clone)]
pub struct Commit {
    pub hash: String,
    pub subject: String,
    pub component: String,
    pub closes: Vec<String>,
    pub breaks: Vec<String>,
    pub commit_type: String,
}

impl View for Commit {
    type V = CommitView;

    open spec fn view(&self) -> CommitView {
        CommitView {
            hash: self.hash@,
            subject: self.subject@,
            component: self.component@,
            closes: strings_view(self.closes@),
            breaks: strings_view(self.breaks@),
            commit_type: self.commit_type@,
        }
    }
}

proof fn lemma_line_end_range(s: Seq<char>, i: int)
    requires
        0 <= i <= s.len(),
    ensures
        i <= line_end(s, i) <= s.len(),
    decreases s.len() - i,
{
    if i < s.len() && s[i] != '\n' {
        lemma_line_end_range(s, i + 1);
    }
}

fn line_end_exec(s: &str, i: usize) -> (r: usize)
    requires
        i <= s@.len(),
    ensures
        r as int == line_end(s@, i as int),
        i <= r <= s@.len(),
{
    let n = s.unicode_len();
    let mut e: usize = i;
    while e < n && s.get_char(e) != '\n'
        invariant
            n == s@.len(),
            i <= e <= n,
            line_end(s@, i as int) == line_end(s@, e as int),
        decreases n - e,
    {
        e = e + 1;
    }
    e
}

/// Parses one raw commit block: the hash line, the subject line, then body
/// lines scanned for closed issues and breaking-change markers.
pub fn parse_raw_commit(commit_str: &str, config: &SectionMap) -> (r: Commit)
    requires
        config.wf(),
    ensures
        r@ == parsed_commit(config@, commit_str@),
{
    let ghost s = commit_str@;
    let ghost ls = lines(s);
    let n = commit_str.unicode_len();
    let mut hash = String::new();
    let mut subject = owned("");
    let mut component = owned("");
    let mut commit_type = owned("Unknown");
    let mut closes: Vec<String> = Vec::new();
    let mut breaks: Vec<String> = Vec::new();
    let mut i: usize = 0;
    let mut idx: usize = 0;
    let mut done = false;
    let ghost mut k: int = 0;
    proof {
        reveal_strlit("");
        reveal_strlit("Unknown");
        assert(ls.subrange(0, ls.len() as int) =~= lines_from(s, 0));
    }
    while !done
        invariant
            n == s.len(),
            s == commit_str@,
            ls == lines(s),
            config.wf(),
            i <= n,
            !done ==> k == idx && idx <= i && idx < ls.len() && ls.subrange(idx as int, ls.len() as int) == lines_from(s, i as int),
            done ==> k == ls.len(),
            k > 0 ==> hash@ == ls[0],
            k > 1 ==> subject@ == parsed_commit(config@, s).subject,
            k > 1 ==> component@ == parsed_commit(config@, s).component,
            k > 1 ==> commit_type@ == parsed_commit(config@, s).commit_type,
            k <= 1 ==> subject@ == Seq::<char>::empty() && component@ == Seq::<char>::empty()
                && commit_type@ == unknown_name(),
            k <= 2 ==> closes@.len() == 0 && breaks@.len() == 0,
            k > 2 ==> strings_view(closes@) + body_refs(ls, k) == body_refs(ls, 2),
            k > 2 ==> strings_view(breaks@) + body_breaks(ls, k) == body_breaks(ls, 2),
        decreases n - i + (if done { 0int } else { 1int }),
    {
        let e = line_end_exec(commit_str, i);
        let line = commit_str.substring_char(i, e);
        proof {
            assert(lines_from(s, i as int)[0] == line@);
            assert(ls[idx as int] == ls.subrange(idx as int, ls.len() as int)[0]);
        }
        if idx == 0 {
            hash = owned(line);
        } else if idx == 1 {
            match parse_subject_line(line) {
                Some((ty, comp, subj)) => {
                    commit_type = owned(config.section_for(ty.as_str()).as_str());
                    component = comp;
                    subject = subj;
                },
                None => {
                    subject = owned(line);
                },
            }
        } else {
            let ghost before = strings_view(closes@);
            let ghost before_b = strings_view(breaks@);
            collect_line_refs(line, &mut closes);
            if word_at_exec(line, 0, "BREAKING") {
                breaks.push(owned(line));
                proof {
                    assert(strings_view(breaks@) =~= before_b.push(line@));
                }
            }
            proof {
                if idx == 2 {
                    assert(before =~= Seq::<Seq<char>>::empty());
                    assert(before_b =~= Seq::<Seq<char>>::empty());
                }
                assert(body_refs(ls, idx as int) == line_refs(line@, 0) + body_refs(ls, idx + 1));
                assert(before + body_refs(ls, idx as int) =~= strings_view(closes@) + body_refs(ls, idx + 1));
                if is_breaking_line(line@) {
                    assert(before_b + body_breaks(ls, idx as int) =~= strings_view(breaks@) + body_breaks(ls, idx + 1));
                } else {
                    assert(before_b + body_breaks(ls, idx as int) =~= strings_view(breaks@) + body_breaks(ls, idx + 1));
                }
            }
        }
        proof {
            lemma_line_end_range(s, i as int);
        }
        if e < n {
            proof {
                assert(ls.subrange(idx + 1, ls.len() as int) =~= lines_from(s, i as int).drop_first());
                assert(lines_from(s, i as int).drop_first() =~= lines_from(s, e + 1));
            }
            i = e + 1;
            idx = idx + 1;
            proof {
                k = k + 1;
            }
        } else {
            proof {
                assert(ls.subrange(idx as int, ls.len() as int).len() == 1);
            }
            done = true;
            proof {
                k = k + 1;
            }
        }
    }
    proof {
        if k <= 2 {
            assert(body_refs(ls, 2) =~= Seq::<Seq<char>>::empty());
            assert(body_breaks(ls, 2) =~= Seq::<Seq<char>>::empty());
            assert(strings_view(closes@) =~= Seq::<Seq<char>>::empty());
            assert(strings_view(breaks@) =~= Seq::<Seq<char>>::empty());
        } else {
            assert(strings_view(closes@) =~= strings_view(closes@) + body_refs(ls, k));
            assert(strings_view(breaks@) =~= strings_view(breaks@) + body_breaks(ls, k));
        }
        if k <= 1 {
            assert(subject_line(ls) =~= Seq::<char>::empty());
            assert(!is_conventional(subject_line(ls)));
        }
    }
    Commit { hash, subject, component, closes, breaks, commit_type }
}


/// The line that ends each record of the raw log, with its newlines.
pub open spec fn record_sep() -> Seq<char> {
    "\n==END==\n"@
}

/// Start of the next separator at or after `i`; the end of `s` if none.
pub open spec fn record_end(s: Seq<char>, i: int) -> int
    decreases s.len() - i,
{
    if 0 <= i < s.len() && !word_at(s, i, record_sep()) {
        record_end(s, i + 1)
    } else {
        i
    }
}

/// The records of `s` from position `i` on, split at each separator.
pub open spec fn records_from(s: Seq<char>, i: int) -> Seq<Seq<char>>
    decreases s.len() + 1 - i,
{
    if i < 0 || i > s.len() {
        Seq::empty()
    } else {
        let e = record_end(s, i);
        if i <= e < s.len() && e + record_sep().len() <= s.len() && e + record_sep().len() > i {
            seq![s.subrange(i, e)] + records_from(s, e + record_sep().len())
        } else {
            seq![s.subrange(i, s.len() as int)]
        }
    }
}

/// The classified commits among records `rs[k..]`, parsed, in order.
pub open spec fn classified(secs: Seq<crate::sections::SectionView>, rs: Seq<Seq<char>>, k: int) -> Seq<CommitView>
    decreases rs.len() - k,
{
    if 0 <= k < rs.len() {
        (if parsed_commit(secs, rs[k]).commit_type != unknown_name() {
            seq![parsed_commit(secs, rs[k])]
        } else {
            Seq::empty()
        }) + classified(secs, rs, k + 1)
    } else {
        Seq::empty()
    }
}

proof fn lemma_record_end_range(s: Seq<char>, i: int)
    requires
        0 <= i <= s.len(),
    ensures
        i <= record_end(s, i) <= s.len(),
        record_end(s, i) < s.len() ==> word_at(s, record_end(s, i), record_sep()),
    decreases s.len() - i,
{
    if i < s.len() && !word_at(s, i, record_sep()) {
        lemma_record_end_range(s, i + 1);
    }
}

/// Parses the raw log, records separated by the `==END==` line, and keeps
/// the commits whose type is known.
pub fn parse_log(raw: &str, config: &SectionMap) -> (r: Vec<Commit>)
    requires
        config.wf(),
    ensures
        r@.map_values(|c: Commit| c@) == classified(config@, records_from(raw@, 0), 0),
{
    let ghost s = raw@;
    let ghost rs = records_from(s, 0);
    let n = raw.unicode_len();
    let sep = "\n==END==\n";
    let m = sep.unicode_len();
    let mut out: Vec<Commit> = Vec::new();
    let mut i: usize = 0;
    let mut done = false;
    let ghost mut k: int = 0;
    proof {
        assert(rs.subrange(0, rs.len() as int) =~= records_from(s, 0));
        assert(out@.map_values(|c: Commit| c@) =~= Seq::<CommitView>::empty());
    }
    while !done
        invariant
            n == s.len(),
            s == raw@,
            m == record_sep().len(),
            sep@ == record_sep(),
            rs == records_from(s, 0),
            config.wf(),
            i <= n,
            0 <= k <= rs.len(),
            !done ==> k < rs.len() && rs.subrange(k, rs.len() as int) == records_from(s, i as int),
            done ==> k == rs.len(),
            out@.map_values(|c: Commit| c@) + classified(config@, rs, k) == classified(config@, rs, 0),
        decreases n - i + (if done { 0int } else { 1int }),
    {
        let mut e: usize = i;
        while e < n && !word_at_exec(raw, e, sep)
            invariant
                n == s.len(),
                s == raw@,
                sep@ == record_sep(),
                i <= e <= n,
                record_end(s, i as int) == record_end(s, e as int),
            decreases n - e,
        {
            e = e + 1;
        }
        proof {
            lemma_record_end_range(s, i as int);
        }
        let rec = raw.substring_char(i, e);
        proof {
            reveal_strlit("\n==END==\n");
            assert(records_from(s, i as int)[0] == rec@);
            assert(rs[k] == rs.subrange(k, rs.len() as int)[0]);
        }
        let ghost before = out@.map_values(|c: Commit| c@);
        let c = parse_raw_commit(rec, config);
        if !crate::text::text_eq(c.commit_type.as_str(), "Unknown") {
            out.push(c);
            proof {
                assert(out@.map_values(|c: Commit| c@) =~= before.push(parsed_commit(config@, rec@)));
            }
        }
        proof {
            assert(before + classified(config@, rs, k) =~= out@.map_values(|c: Commit| c@) + classified(config@, rs, k + 1));
        }
        if e < n {
            proof {
                assert(word_at(s, e as int, record_sep()));
                assert(e + m <= n);
                assert(records_from(s, i as int) == seq![s.subrange(i as int, e as int)] + records_from(s, e + m));
                assert(records_from(s, i as int).drop_first() =~= records_from(s, e + m));
                assert(rs.subrange(k + 1, rs.len() as int) =~= records_from(s, i as int).drop_first());
            }
            i = e + m;
        } else {
            proof {
                assert(rs.subrange(k, rs.len() as int).len() == 1);
            }
            done = true;
        }
        proof {
            k = k + 1;
        }
    }
    proof {
        assert(out@.map_values(|c: Commit| c@) =~= out@.map_values(|c: Commit| c@) + classified(config@, rs, k));
    }
    out
}


proof fn lemma_split_skip(s: Seq<char>, p: int, stop: int)
    requires
        0 <= p <= stop < s.len(),
        forall|i: int| p <= i < stop ==> !splits_at(s, i),
    ensures
        split_from(s, p) == split_from(s, stop),
    decreases stop - p,
{
    if p < stop {
        lemma_split_skip(s, p + 1, stop);
    }
}

proof fn lemma_last_close_hit(s: Seq<char>, lo: int, q0: int, hi: int)
    requires
        0 <= lo < q0 <= hi,
        q0 + 1 < s.len(),
        s[q0] == ')' && s[q0 + 1] == ':',
        forall|q: int| q0 < q <= hi && 0 <= q && q + 1 < s.len() ==> !(#[trigger] s[q] == ')' && s[q + 1] == ':'),
    ensures
        last_close(s, lo, hi) == q0,
    decreases hi - q0,
{
    if hi > q0 {
        lemma_last_close_hit(s, lo, q0, hi - 1);
    }
}

/// A subject line `type(component): text` splits into exactly its type, its
/// component without surrounding whitespace, and its text, when the type
/// holds no '(' or ':' and the text has no "):" in it.
pub proof fn lemma_conventional_parts(t: Seq<char>, c: Seq<char>, x: Seq<char>)
    requires
        forall|i: int| 0 <= i < t.len() ==> t[i] != '(' && t[i] != ':',
        forall|k: int| 0 <= k < x.len() - 1 ==> !(#[trigger] x[k] == ')' && x[k + 1] == ':'),
    ensures
        is_conventional(t + seq!['('] + c + seq![')', ':', ' '] + x),
        type_text(t + seq!['('] + c + seq![')', ':', ' '] + x) == t,
        component_text(t + seq!['('] + c + seq![')', ':', ' '] + x) == trim(c),
        subject_text(t + seq!['('] + c + seq![')', ':', ' '] + x) == x,
{
    let s = t + seq!['('] + c + seq![')', ':', ' '] + x;
    let p = t.len() as int;
    let q0 = p + 1 + c.len();
    assert(s[p] == '(');
    assert(s[q0] == ')' && s[q0 + 1] == ':' && s[q0 + 2] == ' ');
    assert forall|q: int| q0 < q <= s.len() - 2 && 0 <= q && q + 1 < s.len() implies !(#[trigger] s[q] == ')' && s[q + 1] == ':') by {
        if q >= q0 + 3 {
            assert(s[q] == x[q - q0 - 3] && s[q + 1] == x[q - q0 - 2]);
        }
    }
    lemma_last_close_hit(s, p, q0, s.len() - 2);
    assert forall|i: int| 0 <= i < p implies !splits_at(s, i) by {
        assert(s[i] == t[i]);
    }
    if p > 0 {
        lemma_split_skip(s, 0, p);
    }
    assert(splits_at(s, p));
    assert(type_end(s) == p);
    assert(s.subrange(0, p) =~= t);
    assert(s.subrange(p + 1, q0) =~= c);
    let y = s.subrange(q0 + 2, s.len() as int);
    assert(y[0] == ' ');
    assert(y.drop_first() =~= x);
}

/// A commit whose subject line is not conventional gets the type "Unknown"
/// and is listed under no section, whatever the table.
pub proof fn lemma_unconventional_dropped(
    secs: Seq<crate::sections::SectionView>,
    s: Seq<char>,
    t: Seq<char>,
    dual: bool,
)
    requires
        !is_conventional(subject_line(lines(s))),
    ensures
        parsed_commit(secs, s).commit_type == unknown_name(),
        !crate::aggregate::belongs(parsed_commit(secs, s), t, dual),
{
}

} // verus!
