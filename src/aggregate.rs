use vstd::prelude::*;

use crate::commit::{Commit, CommitView};
use crate::order::{lemma_text_lt_order, text_less, text_lt};
use crate::sections::{strings_view, unknown_name, SectionMap, SectionView};
use crate::text::{clone_strings, clone_text, owned, text_eq};

verus! {

/// The name of the section of breaking changes.
pub open spec fn breaking_name() -> Seq<char> {
    "Breaking"@
}

/// Whether commit `c` is listed under section `t`. Unknown commits are
/// listed nowhere; a commit with breaking notes is listed under "Breaking",
/// and under its own section too when `dual` is set.
pub open spec fn belongs(c: CommitView, t: Seq<char>, dual: bool) -> bool {
    c.commit_type != unknown_name() && if t == breaking_name() {
        c.breaks.len() > 0 || c.commit_type == breaking_name()
    } else {
        c.commit_type == t && (dual || c.breaks.len() == 0)
    }
}

/// The commits among `cs[..k]`, in order, listed under `t` with component `comp`.
pub open spec fn picked(cs: Seq<CommitView>, t: Seq<char>, dual: bool, comp: Seq<char>, k: int) -> Seq<
    CommitView,
>
    decreases k,
{
    if k <= 0 {
        Seq::empty()
    } else if belongs(cs[k - 1], t, dual) && cs[k - 1].component == comp {
        picked(cs, t, dual, comp, k - 1).push(cs[k - 1])
    } else {
        picked(cs, t, dual, comp, k - 1)
    }
}

/// A component group as its name and its commits.
pub type GroupView = (Seq<char>, Seq<CommitView>);

/// `gs` is the grouping of the commits of `cs[..k]` listed under `t`: one
/// group per component that occurs, names in strictly ascending order, each
/// holding exactly its commits in input order.
pub open spec fn grouping_ok(cs: Seq<CommitView>, t: Seq<char>, dual: bool, k: int, gs: Seq<GroupView>) -> bool {
    &&& forall|a: int, b: int| 0 <= a < b < gs.len() ==> text_lt(#[trigger] gs[a].0, #[trigger] gs[b].0)
    &&& forall|a: int| 0 <= a < gs.len() ==> #[trigger] gs[a].1 == picked(cs, t, dual, gs[a].0, k)
        && gs[a].1.len() > 0
    &&& forall|l: int| 0 <= l < k && belongs(#[trigger] cs[l], t, dual) ==> exists|a: int|
        0 <= a < gs.len() && gs[a].0 == cs[l].component
}

/// The commits of one component within a section.
#[derive(Debug, Clone)]
pub struct ComponentGroup {
    pub name: String,
    pub commits: Vec<Commit>,
}

pub open spec fn commits_view(v: Seq<Commit>) -> Seq<CommitView> {
    v.map_values(|c: Commit| c@)
}

impl View for ComponentGroup {
    type V = GroupView;

    open spec fn view(&self) -> GroupView {
        (self.name@, commits_view(self.commits@))
    }
}

pub open spec fn groups_view(v: Seq<ComponentGroup>) -> Seq<GroupView> {
    v.map_values(|g: ComponentGroup| g@)
}

proof fn lemma_picked_witness(cs: Seq<CommitView>, t: Seq<char>, dual: bool, comp: Seq<char>, k: int)
    requires
        0 <= k <= cs.len(),
        picked(cs, t, dual, comp, k).len() > 0,
    ensures
        exists|l: int| 0 <= l < k && belongs(#[trigger] cs[l], t, dual) && cs[l].component == comp,
    decreases k,
{
    if belongs(cs[k - 1], t, dual) && cs[k - 1].component == comp {
        assert(belongs(cs[k - 1], t, dual));
    } else {
        lemma_picked_witness(cs, t, dual, comp, k - 1);
    }
}

/// A copy of a commit record.
pub fn clone_commit(c: &Commit) -> (r: Commit)
    ensures
        r@ == c@,
{
    Commit {
        hash: clone_text(&c.hash),
        subject: clone_text(&c.subject),
        component: clone_text(&c.component),
        closes: clone_strings(&c.closes),
        breaks: clone_strings(&c.breaks),
        commit_type: clone_text(&c.commit_type),
    }
}

fn belongs_exec(c: &Commit, t: &str, dual: bool) -> (r: bool)
    ensures
        r == belongs(c@, t@, dual),
{
    if text_eq(c.commit_type.as_str(), "Unknown") {
        return false;
    }
    if text_eq(t, "Breaking") {
        c.breaks.len() > 0 || text_eq(c.commit_type.as_str(), "Breaking")
    } else {
        text_eq(c.commit_type.as_str(), t) && (dual || c.breaks.len() == 0)
    }
}

/// Groups the commits listed under section `title` by component.
pub fn group_section(commits: &Vec<Commit>, title: &str, dual: bool) -> (r: Vec<ComponentGroup>)
    ensures
        grouping_ok(commits_view(commits@), title@, dual, commits@.len() as int, groups_view(r@)),
{
    let ghost cs = commits_view(commits@);
    let ghost t = title@;
    let mut r: Vec<ComponentGroup> = Vec::new();
    let mut j: usize = 0;
    proof {
        assert(groups_view(r@) =~= Seq::<GroupView>::empty());
    }
    while j < commits.len()
        invariant
            cs == commits_view(commits@),
            t == title@,
            j <= commits@.len(),
            grouping_ok(cs, t, dual, j as int, groups_view(r@)),
        decreases commits@.len() - j,
    {
        let c = &commits[j];
        let ghost gs = groups_view(r@);
        proof {
            assert(cs[j as int] == c@);
        }
        if !belongs_exec(c, title, dual) {
            proof {
                assert forall|a: int| 0 <= a < gs.len() implies #[trigger] gs[a].1 == picked(cs, t, dual, gs[a].0, j + 1) by {
                }
            }
        } else {
            let n = r.len();
            let mut i: usize = 0;
            while i < n && !text_eq(r[i].name.as_str(), c.component.as_str())
                invariant
                    n == r@.len(),
                    gs == groups_view(r@),
                    i <= n,
                    forall|a: int| 0 <= a < i ==> gs[a].0 != c@.component,
                decreases n - i,
            {
                i = i + 1;
            }
            if i < n {
                let ghost before = r@;
                let mut g = r.remove(i);
                let ghost g0 = g;
                g.commits.push(clone_commit(c));
                proof {
                    assert(g0 == before[i as int]);
                    assert(commits_view(g.commits@) =~= commits_view(g0.commits@).push(c@));
                    assert(g@ == (gs[i as int].0, gs[i as int].1.push(c@)));
                }
                r.insert(i, g);
                proof {
                    let gs2 = groups_view(r@);
                    assert(gs[i as int].0 == c@.component);
                    assert(gs2 =~= gs.update(i as int, (gs[i as int].0, gs[i as int].1.push(c@))));
                    assert forall|a: int| 0 <= a < gs2.len() implies #[trigger] gs2[a].1 == picked(cs, t, dual, gs2[a].0, j + 1)
                        && gs2[a].1.len() > 0 by {
                        if a != i {
                            if a < i {
                                assert(text_lt(gs[a].0, gs[i as int].0));
                            } else {
                                assert(text_lt(gs[i as int].0, gs[a].0));
                            }
                            lemma_text_lt_order(gs[a].0, gs[i as int].0, gs[a].0);
                            lemma_text_lt_order(gs[i as int].0, gs[a].0, gs[i as int].0);
                        }
                    }
                    assert forall|l: int| 0 <= l < j + 1 && belongs(#[trigger] cs[l], t, dual) implies exists|a: int|
                        0 <= a < gs2.len() && gs2[a].0 == cs[l].component by {
                        if l == j {
                            assert(gs2[i as int].0 == cs[l].component);
                        } else {
                            let a = choose|a: int| 0 <= a < gs.len() && gs[a].0 == cs[l].component;
                            assert(gs2[a].0 == cs[l].component);
                        }
                    }
                }
            } else {
                let mut p: usize = 0;
                while p < n && text_less(r[p].name.as_str(), c.component.as_str())
                    invariant
                        n == r@.len(),
                        gs == groups_view(r@),
                        p <= n,
                        forall|a: int| 0 <= a < p ==> text_lt(gs[a].0, c@.component),
                    decreases n - p,
                {
                    p = p + 1;
                }
                let g = ComponentGroup { name: clone_text(&c.component), commits: vec![clone_commit(c)] };
                r.insert(p, g);
                proof {
                    let comp = c@.component;
                    let gs2 = groups_view(r@);
                    assert(g@.1 =~= seq![c@]);
                    assert(gs2 =~= gs.insert(p as int, (comp, seq![c@])));
                    if p < n {
                        assert(!text_lt(gs[p as int].0, comp));
                        assert(gs[p as int].0 != comp);
                        lemma_text_lt_order(gs[p as int].0, comp, comp);
                        assert(text_lt(comp, gs[p as int].0));
                    }
                    assert forall|a: int, b: int| 0 <= a < b < gs2.len() implies text_lt(#[trigger] gs2[a].0, #[trigger] gs2[b].0) by {
                        if b == p {
                        } else if a == p {
                            if b > p + 1 {
                                assert(text_lt(gs[p as int].0, gs[b - 1].0));
                                lemma_text_lt_order(comp, gs[p as int].0, gs[b - 1].0);
                            }
                        } else if a < p && b > p {
                            assert(text_lt(gs[a].0, comp));
                            if b - 1 > p {
                                assert(text_lt(gs[p as int].0, gs[b - 1].0));
                                lemma_text_lt_order(comp, gs[p as int].0, gs[b - 1].0);
                            }
                            lemma_text_lt_order(gs[a].0, comp, gs[b - 1].0);
                        } else if a > p {
                            assert(text_lt(gs[a - 1].0, gs[b - 1].0));
                        } else {
                            assert(text_lt(gs[a].0, gs[b].0));
                        }
                    }
                    if picked(cs, t, dual, comp, j as int).len() > 0 {
                        lemma_picked_witness(cs, t, dual, comp, j as int);
                        let l = choose|l: int| 0 <= l < j && belongs(#[trigger] cs[l], t, dual) && cs[l].component == comp;
                        let a = choose|a: int| 0 <= a < gs.len() && gs[a].0 == cs[l].component;
                        assert(gs[a].0 == comp);
                    }
                    assert(picked(cs, t, dual, comp, j + 1) =~= seq![c@]);
                    assert forall|a: int| 0 <= a < gs2.len() implies #[trigger] gs2[a].1 == picked(cs, t, dual, gs2[a].0, j + 1)
                        && gs2[a].1.len() > 0 by {
                        if a != p {
                            let o = if a < p { a } else { a - 1 };
                            assert(gs2[a] == gs[o]);
                            assert(gs[o].0 != comp);
                        }
                    }
                    assert forall|l: int| 0 <= l < j + 1 && belongs(#[trigger] cs[l], t, dual) implies exists|a: int|
                        0 <= a < gs2.len() && gs2[a].0 == cs[l].component by {
                        if l == j {
                            assert(gs2[p as int].0 == cs[l].component);
                        } else {
                            let a = choose|a: int| 0 <= a < gs.len() && gs[a].0 == cs[l].component;
                            if a < p {
                                assert(gs2[a].0 == cs[l].component);
                            } else {
                                assert(gs2[a + 1].0 == cs[l].component);
                            }
                        }
                    }
                }
            }
        }
        j = j + 1;
    }
    r
}


/// The registered section names from the `k`-th on, in order, without
/// "Breaking" and "Unknown".
pub open spec fn plain_titles(secs: Seq<SectionView>, k: int) -> Seq<Seq<char>>
    decreases secs.len() - k,
{
    if 0 <= k < secs.len() {
        (if secs[k].0 != breaking_name() && secs[k].0 != unknown_name() {
            seq![secs[k].0]
        } else {
            Seq::empty()
        }) + plain_titles(secs, k + 1)
    } else {
        Seq::empty()
    }
}

/// Sections in output order: "Breaking" first, then the registered ones.
pub open spec fn candidates(secs: Seq<SectionView>) -> Seq<Seq<char>> {
    seq![breaking_name()] + plain_titles(secs, 0)
}

/// Whether any commit of `cs` is listed under `t`.
pub open spec fn has_members(cs: Seq<CommitView>, t: Seq<char>, dual: bool) -> bool {
    exists|l: int| 0 <= l < cs.len() && belongs(#[trigger] cs[l], t, dual)
}

/// The titles of `ts[k..]` that have commits listed under them, in order.
pub open spec fn emitted(cs: Seq<CommitView>, dual: bool, ts: Seq<Seq<char>>, k: int) -> Seq<Seq<char>>
    decreases ts.len() - k,
{
    if 0 <= k < ts.len() {
        (if has_members(cs, ts[k], dual) {
            seq![ts[k]]
        } else {
            Seq::empty()
        }) + emitted(cs, dual, ts, k + 1)
    } else {
        Seq::empty()
    }
}

/// One section of the changelog with its component groups.
#[derive(Debug, Clone)]
pub struct SectionGroup {
    pub title: String,
    pub components: Vec<ComponentGroup>,
}

pub open spec fn titles_view(v: Seq<SectionGroup>) -> Seq<Seq<char>> {
    v.map_values(|g: SectionGroup| g.title@)
}

/// The section names of `sections` in output order.
fn candidate_titles(sections: &SectionMap) -> (r: Vec<String>)
    ensures
        strings_view(r@) == candidates(sections@),
{
    let mut r: Vec<String> = vec![owned("Breaking")];
    let n = sections.sections.len();
    let mut k: usize = 0;
    proof {
        assert(strings_view(r@) =~= seq![breaking_name()]);
    }
    while k < n
        invariant
            n == sections.sections@.len(),
            k <= n,
            strings_view(r@) + plain_titles(sections@, k as int) == candidates(sections@),
        decreases n - k,
    {
        let ghost before = strings_view(r@);
        let name = &sections.sections[k].name;
        proof {
            assert(sections@[k as int].0 == name@);
        }
        if !text_eq(name.as_str(), "Breaking") && !text_eq(name.as_str(), "Unknown") {
            r.push(clone_text(name));
            proof {
                assert(strings_view(r@) =~= before.push(name@));
            }
        }
        proof {
            assert(before + plain_titles(sections@, k as int) =~= strings_view(r@) + plain_titles(sections@, k + 1));
        }
        k = k + 1;
    }
    proof {
        assert(strings_view(r@) =~= strings_view(r@) + plain_titles(sections@, n as int));
    }
    r
}

/// Groups the classified commits by section, then by component. Sections
/// come in output order, each only if it lists a commit; Unknown commits
/// are dropped.
pub fn aggregate(commits: &Vec<Commit>, sections: &SectionMap, dual: bool) -> (r: Vec<SectionGroup>)
    ensures
        titles_view(r@) == emitted(commits_view(commits@), dual, candidates(sections@), 0),
        forall|i: int| 0 <= i < r@.len() ==> grouping_ok(
            commits_view(commits@),
            #[trigger] r@[i].title@,
            dual,
            commits@.len() as int,
            groups_view(r@[i].components@),
        ),
{
    let ghost cs = commits_view(commits@);
    let titles = candidate_titles(sections);
    let ghost ts = strings_view(titles@);
    let mut r: Vec<SectionGroup> = Vec::new();
    let mut k: usize = 0;
    proof {
        assert(titles_view(r@) =~= Seq::<Seq<char>>::empty());
    }
    while k < titles.len()
        invariant
            cs == commits_view(commits@),
            ts == strings_view(titles@),
            ts == candidates(sections@),
            k <= titles@.len(),
            titles_view(r@) + emitted(cs, dual, ts, k as int) == emitted(cs, dual, ts, 0),
            forall|i: int| 0 <= i < r@.len() ==> grouping_ok(cs, #[trigger] r@[i].title@, dual, cs.len() as int, groups_view(r@[i].components@)),
        decreases titles@.len() - k,
    {
        let ghost before = titles_view(r@);
        let title = &titles[k];
        let groups = group_section(commits, title.as_str(), dual);
        let ghost gs = groups_view(groups@);
        proof {
            assert(ts[k as int] == title@);
            if gs.len() > 0 {
                assert(gs[0].1.len() > 0);
                lemma_picked_witness(cs, title@, dual, gs[0].0, cs.len() as int);
                let l = choose|l: int| 0 <= l < cs.len() && belongs(#[trigger] cs[l], title@, dual) && cs[l].component == gs[0].0;
                assert(has_members(cs, title@, dual));
            } else {
                if has_members(cs, title@, dual) {
                    let l = choose|l: int| 0 <= l < cs.len() && belongs(#[trigger] cs[l], title@, dual);
                    assert(exists|a: int| 0 <= a < gs.len() && gs[a].0 == cs[l].component);
                }
            }
        }
        if groups.len() > 0 {
            r.push(SectionGroup { title: clone_text(title), components: groups });
            proof {
                assert(titles_view(r@) =~= before.push(title@));
            }
        }
        proof {
            assert(before + emitted(cs, dual, ts, k as int) =~= titles_view(r@) + emitted(cs, dual, ts, k + 1));
        }
        k = k + 1;
    }
    proof {
        assert(titles_view(r@) =~= titles_view(r@) + emitted(cs, dual, ts, titles@.len() as int));
    }
    r
}

} // verus!
