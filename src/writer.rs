use vstd::prelude::*;

use crate::aggregate::{commits_view, groups_view, ComponentGroup, GroupView, SectionGroup};
use crate::clog::{short_hash, Clog, LinkStyle};
use crate::commit::{Commit, CommitView};
use crate::sections::strings_view;
use crate::text::{join2, owned};

verus! {

/// The path between the repository URL and a commit hash.
pub open spec fn commit_path(style: LinkStyle) -> Seq<char> {
    match style {
        LinkStyle::Stash => "/commits/"@,
        _ => "/commit/"@,
    }
}

/// A reference to a commit: its short hash, linked when a repository is set.
pub open spec fn commit_link(style: LinkStyle, hash: Seq<char>, repo: Seq<char>) -> Seq<char> {
    if repo.len() == 0 {
        short_hash(hash)
    } else {
        "["@ + short_hash(hash) + "]("@ + repo + commit_path(style) + hash + ")"@
    }
}

/// A reference to an issue: `#n`, linked when a repository is set and the
/// style has issue pages.
pub open spec fn issue_link(style: LinkStyle, issue: Seq<char>, repo: Seq<char>) -> Seq<char> {
    if repo.len() == 0 || style == LinkStyle::Stash {
        "#"@ + issue
    } else {
        "[#"@ + issue + "]("@ + repo + "/issues/"@ + issue + ")"@
    }
}

/// A view of the repository's comparison between two refs.
pub open spec fn compare_link(style: LinkStyle, repo: Seq<char>, from: Seq<char>, to: Seq<char>) -> Seq<char> {
    match style {
        LinkStyle::Stash => repo + "/compare/commits?targetBranch="@ + from + "&sourceBranch="@ + to,
        _ => repo + "/compare/"@ + from + "..."@ + to,
    }
}

/// The issue links of `is[k..]`, separated by ", ".
pub open spec fn issue_list(style: LinkStyle, is: Seq<Seq<char>>, repo: Seq<char>, k: int) -> Seq<char>
    decreases is.len() - k,
{
    if 0 <= k < is.len() {
        (if k > 0 { ", "@ } else { Seq::empty() }) + issue_link(style, is[k], repo) + issue_list(style, is, repo, k + 1)
    } else {
        Seq::empty()
    }
}

/// ", closes ..." for a commit that closes issues; empty otherwise.
pub open spec fn closes_text(style: LinkStyle, is: Seq<Seq<char>>, repo: Seq<char>) -> Seq<char> {
    if is.len() > 0 {
        ", closes "@ + issue_list(style, is, repo, 0)
    } else {
        Seq::empty()
    }
}

/// One list item for a commit.
pub open spec fn entry_text(style: LinkStyle, repo: Seq<char>, prefix: Seq<char>, c: CommitView) -> Seq<char> {
    prefix + " "@ + c.subject + " ("@ + commit_link(style, c.hash, repo) + closes_text(style, c.closes, repo) + ")\n"@
}

pub open spec fn entries_text(style: LinkStyle, repo: Seq<char>, prefix: Seq<char>, cs: Seq<CommitView>, k: int) -> Seq<char>
    decreases cs.len() - k,
{
    if 0 <= k < cs.len() {
        entry_text(style, repo, prefix, cs[k]) + entries_text(style, repo, prefix, cs, k + 1)
    } else {
        Seq::empty()
    }
}

/// Whether a group is written as a heading with nested items.
pub open spec fn nested(g: GroupView) -> bool {
    g.1.len() > 1 && g.0.len() > 0
}

/// What starts each item of a group.
pub open spec fn item_prefix(g: GroupView) -> Seq<char> {
    if nested(g) {
        "  *"@
    } else if g.0.len() > 0 {
        "* **"@ + g.0 + ":**"@
    } else {
        "*"@
    }
}

/// A component group: a component heading when nested, then its items.
pub open spec fn group_text(style: LinkStyle, repo: Seq<char>, g: GroupView) -> Seq<char> {
    (if nested(g) { "* **"@ + g.0 + ":**\n"@ } else { Seq::empty() }) + entries_text(style, repo, item_prefix(g), g.1, 0)
}

pub open spec fn groups_text(style: LinkStyle, repo: Seq<char>, gs: Seq<GroupView>, k: int) -> Seq<char>
    decreases gs.len() - k,
{
    if 0 <= k < gs.len() {
        group_text(style, repo, gs[k]) + groups_text(style, repo, gs, k + 1)
    } else {
        Seq::empty()
    }
}

/// A section as its title and its component groups.
pub type SectionGroupView = (Seq<char>, Seq<GroupView>);

pub open spec fn sections_view(v: Seq<SectionGroup>) -> Seq<SectionGroupView> {
    v.map_values(|g: SectionGroup| (g.title@, groups_view(g.components@)))
}

/// A section: its heading, its groups, and a closing blank line.
pub open spec fn section_text(style: LinkStyle, repo: Seq<char>, s: SectionGroupView) -> Seq<char> {
    "\n#### "@ + s.0 + "\n\n"@ + groups_text(style, repo, s.1, 0) + "\n"@
}

pub open spec fn sections_text(style: LinkStyle, repo: Seq<char>, ss: Seq<SectionGroupView>, k: int) -> Seq<char>
    decreases ss.len() - k,
{
    if 0 <= k < ss.len() {
        section_text(style, repo, ss[k]) + sections_text(style, repo, ss, k + 1)
    } else {
        Seq::empty()
    }
}

/// The header: an anchor, then the release heading (linked to the range's
/// comparison when a repository is set), the subtitle and the date.
pub open spec fn header_text(c: Clog, date: Seq<char>) -> Seq<char> {
    "<a name=\""@ + c.version@ + "\"></a>\n"@ + (if c.patch_ver { "###"@ } else { "##"@ }) + " "@ + (if c.repo@.len()
        == 0 {
        c.version@
    } else {
        "["@ + c.version@ + "]("@ + compare_link(c.link_style, c.repo@, c.from@, c.to@) + ")"@
    }) + (if c.subtitle@.len() > 0 { " "@ + c.subtitle@ } else { Seq::empty() }) + " ("@ + date + ")\n\n"@
}

/// The newly generated part of the changelog.
pub open spec fn document(c: Clog, date: Seq<char>, ss: Seq<SectionGroupView>) -> Seq<char> {
    header_text(c, date) + sections_text(c.link_style, c.repo@, ss, 0)
}

/// The whole changelog: the generated part, then the prior content.
pub open spec fn rendered(c: Clog, date: Seq<char>, ss: Seq<SectionGroupView>, prior: Seq<char>) -> Seq<char> {
    document(c, date, ss) + prior
}

fn short_hash_exec(h: &str) -> (r: &str)
    ensures
        r@ == short_hash(h@),
{
    let n = h.unicode_len();
    if n <= 8 {
        proof {
            assert(h@.subrange(0, n as int) =~= h@);
        }
        h.substring_char(0, n)
    } else {
        h.substring_char(0, 8)
    }
}

/// The reference to commit `hash` in `style`.
pub fn commit_link_text(style: LinkStyle, hash: &str, repo: &str) -> (r: String)
    ensures
        r@ == commit_link(style, hash@, repo@),
{
    let short = short_hash_exec(hash);
    if repo.unicode_len() == 0 {
        return owned(short);
    }
    let mut s = join2("[", short);
    s.append("](");
    s.append(repo);
    match style {
        LinkStyle::Stash => s.append("/commits/"),
        _ => s.append("/commit/"),
    }
    s.append(hash);
    s.append(")");
    s
}

/// The reference to issue `issue` in `style`.
pub fn issue_link_text(style: LinkStyle, issue: &str, repo: &str) -> (r: String)
    ensures
        r@ == issue_link(style, issue@, repo@),
{
    if repo.unicode_len() == 0 || style == LinkStyle::Stash {
        return join2("#", issue);
    }
    let mut s = join2("[#", issue);
    s.append("](");
    s.append(repo);
    s.append("/issues/");
    s.append(issue);
    s.append(")");
    s
}

fn closes_text_exec(style: LinkStyle, is: &Vec<String>, repo: &str) -> (r: String)
    ensures
        r@ == closes_text(style, strings_view(is@), repo@),
{
    let ghost v = strings_view(is@);
    if is.len() == 0 {
        let e = owned("");
        proof {
            reveal_strlit("");
        }
        return e;
    }
    let mut s = owned(", closes ");
    let ghost start = s@;
    let mut k: usize = 0;
    while k < is.len()
        invariant
            v == strings_view(is@),
            k <= is@.len(),
            s@ + issue_list(style, v, repo@, k as int) == start + issue_list(style, v, repo@, 0),
        decreases is@.len() - k,
    {
        let ghost before = s@;
        if k > 0 {
            s.append(", ");
        }
        let link = issue_link_text(style, is[k].as_str(), repo);
        s.append(link.as_str());
        proof {
            assert(v[k as int] == is@[k as int]@);
            if k > 0 {
                assert(before + issue_list(style, v, repo@, k as int) =~= s@ + issue_list(style, v, repo@, k + 1));
            } else {
                assert(before + issue_list(style, v, repo@, k as int) =~= s@ + issue_list(style, v, repo@, k + 1));
            }
        }
        k = k + 1;
    }
    proof {
        assert(s@ =~= s@ + issue_list(style, v, repo@, is@.len() as int));
    }
    s
}

fn entry_text_exec(style: LinkStyle, repo: &str, prefix: &str, c: &Commit) -> (r: String)
    ensures
        r@ == entry_text(style, repo@, prefix@, c@),
{
    let mut s = join2(prefix, " ");
    s.append(c.subject.as_str());
    s.append(" (");
    let link = commit_link_text(style, c.hash.as_str(), repo);
    s.append(link.as_str());
    let closes = closes_text_exec(style, &c.closes, repo);
    s.append(closes.as_str());
    s.append(")\n");
    s
}

fn group_text_exec(style: LinkStyle, repo: &str, g: &ComponentGroup) -> (r: String)
    ensures
        r@ == group_text(style, repo@, g@),
{
    let ghost cs = commits_view(g.commits@);
    let has_name = g.name.unicode_len() > 0;
    let is_nested = g.commits.len() > 1 && has_name;
    let mut s = String::new();
    let prefix = if is_nested {
        s = join2("* **", g.name.as_str());
        s.append(":**\n");
        owned("  *")
    } else if has_name {
        let mut p = join2("* **", g.name.as_str());
        p.append(":**");
        p
    } else {
        owned("*")
    };
    let ghost start = s@;
    proof {
        assert(start == (if nested(g@) { "* **"@ + g@.0 + ":**\n"@ } else { Seq::<char>::empty() }));
        assert(prefix@ == item_prefix(g@));
    }
    let mut k: usize = 0;
    while k < g.commits.len()
        invariant
            cs == commits_view(g.commits@),
            k <= g.commits@.len(),
            prefix@ == item_prefix(g@),
            s@ + entries_text(style, repo@, prefix@, cs, k as int) == start + entries_text(style, repo@, prefix@, cs, 0),
        decreases g.commits@.len() - k,
    {
        let ghost before = s@;
        let e = entry_text_exec(style, repo, prefix.as_str(), &g.commits[k]);
        s.append(e.as_str());
        proof {
            assert(cs[k as int] == g.commits@[k as int]@);
            assert(before + entries_text(style, repo@, prefix@, cs, k as int) =~= s@ + entries_text(style, repo@, prefix@, cs, k + 1));
        }
        k = k + 1;
    }
    proof {
        assert(s@ =~= s@ + entries_text(style, repo@, prefix@, cs, g.commits@.len() as int));
    }
    s
}

/// The text of one section.
pub fn write_section(style: LinkStyle, repo: &str, sec: &SectionGroup) -> (r: String)
    ensures
        r@ == section_text(style, repo@, (sec.title@, groups_view(sec.components@))),
{
    let ghost gs = groups_view(sec.components@);
    let mut s = join2("\n#### ", sec.title.as_str());
    s.append("\n\n");
    let ghost start = s@;
    let mut k: usize = 0;
    while k < sec.components.len()
        invariant
            gs == groups_view(sec.components@),
            k <= sec.components@.len(),
            s@ + groups_text(style, repo@, gs, k as int) == start + groups_text(style, repo@, gs, 0),
        decreases sec.components@.len() - k,
    {
        let ghost before = s@;
        let t = group_text_exec(style, repo, &sec.components[k]);
        s.append(t.as_str());
        proof {
            assert(gs[k as int] == sec.components@[k as int]@);
            assert(before + groups_text(style, repo@, gs, k as int) =~= s@ + groups_text(style, repo@, gs, k + 1));
        }
        k = k + 1;
    }
    proof {
        assert(s@ =~= s@ + groups_text(style, repo@, gs, sec.components@.len() as int));
    }
    s.append("\n");
    s
}

/// The header of a release dated `date`.
pub fn write_header(clog: &Clog, date: &str) -> (r: String)
    ensures
        r@ == header_text(*clog, date@),
{
    let mut s = join2("<a name=\"", clog.version.as_str());
    s.append("\"></a>\n");
    if clog.patch_ver {
        s.append("###");
    } else {
        s.append("##");
    }
    s.append(" ");
    if clog.repo.unicode_len() == 0 {
        s.append(clog.version.as_str());
    } else {
        s.append("[");
        s.append(clog.version.as_str());
        s.append("](");
        s.append(clog.repo.as_str());
        match clog.link_style {
            LinkStyle::Stash => {
                s.append("/compare/commits?targetBranch=");
                s.append(clog.from.as_str());
                s.append("&sourceBranch=");
            },
            _ => {
                s.append("/compare/");
                s.append(clog.from.as_str());
                s.append("...");
            },
        }
        s.append(clog.to.as_str());
        s.append(")");
    }
    if clog.subtitle.unicode_len() > 0 {
        s.append(" ");
        s.append(clog.subtitle.as_str());
    }
    s.append(" (");
    s.append(date);
    s.append(")\n\n");
    s
}

/// The changelog: the header, each section in order, then `prior`, the
/// changelog as it stood, verbatim.
pub fn render(clog: &Clog, date: &str, sections: &Vec<SectionGroup>, prior: &str) -> (r: String)
    ensures
        r@ == rendered(*clog, date@, sections_view(sections@), prior@),
{
    let ghost ss = sections_view(sections@);
    let mut s = write_header(clog, date);
    let ghost start = s@;
    let mut k: usize = 0;
    while k < sections.len()
        invariant
            ss == sections_view(sections@),
            k <= sections@.len(),
            s@ + sections_text(clog.link_style, clog.repo@, ss, k as int) == start + sections_text(clog.link_style, clog.repo@, ss, 0),
        decreases sections@.len() - k,
    {
        let ghost before = s@;
        let t = write_section(clog.link_style, clog.repo.as_str(), &sections[k]);
        s.append(t.as_str());
        proof {
            assert(ss[k as int] == (sections@[k as int].title@, groups_view(sections@[k as int].components@)));
            assert(before + sections_text(clog.link_style, clog.repo@, ss, k as int) =~= s@ + sections_text(clog.link_style, clog.repo@, ss, k + 1));
        }
        k = k + 1;
    }
    proof {
        assert(s@ =~= s@ + sections_text(clog.link_style, clog.repo@, ss, sections@.len() as int));
    }
    s.append(prior);
    s
}


/// Rendering once onto an empty changelog, then again onto that output,
/// leaves the first output intact as the end of the second: history is
/// only ever prepended to.
pub proof fn lemma_history_kept(c: Clog, date: Seq<char>, ss: Seq<SectionGroupView>)
    ensures
        ({
            let first = rendered(c, date, ss, Seq::empty());
            let second = rendered(c, date, ss, first);
            &&& second.len() >= first.len()
            &&& second.subrange(second.len() - first.len(), second.len() as int) == first
        }),
{
    let first = rendered(c, date, ss, Seq::empty());
    let second = rendered(c, date, ss, first);
    let d = document(c, date, ss);
    assert(first =~= d);
    assert(second.subrange(second.len() - first.len(), second.len() as int) =~= first);
}

} // verus!
