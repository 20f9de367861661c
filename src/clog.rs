use vstd::prelude::*;

use crate::error::ClogError;
use crate::sections::{names_ok, shared, strings_view, table_wf, with_section, Section, SectionMap, SectionView};
use crate::text::{clone_strings, clone_text, owned};
use crate::version::{bump_result, bump_version, Bump};

verus! {

/// How links to commits, issues and comparisons are written.
#[derive(Debug, Clone, Copy, PartialEq, Eq, Structural)]
pub enum LinkStyle {
    Github,
    Gitlab,
    Stash,
}

pub open spec fn lower_char(c: char) -> char {
    if 'A' <= c <= 'Z' {
        ((c as u8) + 32) as char
    } else {
        c
    }
}

fn lower_char_exec(c: char) -> (r: char)
    ensures
        r == lower_char(c),
{
    if 'A' <= c && c <= 'Z' {
        ((c as u8) + 32) as char
    } else {
        c
    }
}

/// Equality of two texts, ignoring the case of ASCII letters.
pub open spec fn eq_ignore_case(a: Seq<char>, b: Seq<char>) -> bool {
    a.len() == b.len() && forall|i: int| 0 <= i < a.len() ==> lower_char(#[trigger] a[i]) == lower_char(b[i])
}

fn eq_ignore_case_exec(a: &str, b: &str) -> (r: bool)
    ensures
        r == eq_ignore_case(a@, b@),
{
    let n = a.unicode_len();
    if n != b.unicode_len() {
        return false;
    }
    let mut i: usize = 0;
    while i < n
        invariant
            n == a@.len(),
            n == b@.len(),
            i <= n,
            forall|k: int| 0 <= k < i ==> lower_char(#[trigger] a@[k]) == lower_char(b@[k]),
        decreases n - i,
    {
        if lower_char_exec(a.get_char(i)) != lower_char_exec(b.get_char(i)) {
            return false;
        }
        i = i + 1;
    }
    true
}

/// The style that a name selects (ASCII case ignored), if any.
pub open spec fn style_named(s: Seq<char>) -> Option<LinkStyle> {
    if eq_ignore_case(s, "github"@) {
        Some(LinkStyle::Github)
    } else if eq_ignore_case(s, "gitlab"@) {
        Some(LinkStyle::Gitlab)
    } else if eq_ignore_case(s, "stash"@) {
        Some(LinkStyle::Stash)
    } else {
        None
    }
}

impl LinkStyle {
    /// The style with the given name, ASCII case ignored.
    pub fn from_name(s: &str) -> (r: Option<LinkStyle>)
        ensures
            r == style_named(s@),
    {
        if eq_ignore_case_exec(s, "github") {
            Some(LinkStyle::Github)
        } else if eq_ignore_case_exec(s, "gitlab") {
            Some(LinkStyle::Gitlab)
        } else if eq_ignore_case_exec(s, "stash") {
            Some(LinkStyle::Stash)
        } else {
            None
        }
    }
}

/// The `git log --grep` pattern for the aliases of sections `k..` of `secs`:
/// `^alias|` for each alias in order.
pub open spec fn alias_alternatives(secs: Seq<SectionView>, k: int) -> Seq<char>
    decreases secs.len() - k,
{
    if 0 <= k < secs.len() {
        section_alternatives(secs[k].1, 0) + alias_alternatives(secs, k + 1)
    } else {
        Seq::empty()
    }
}

pub open spec fn section_alternatives(al: Seq<Seq<char>>, j: int) -> Seq<char>
    decreases al.len() - j,
{
    if 0 <= j < al.len() {
        "^"@ + al[j] + "|"@ + section_alternatives(al, j + 1)
    } else {
        Seq::empty()
    }
}

/// The pattern that selects commits of a known type or with a breaking marker.
pub open spec fn grep_text(secs: Seq<SectionView>) -> Seq<char> {
    alias_alternatives(secs, 0) + "BREAKING"@
}

/// The pattern that selects the commits worth a changelog entry.
pub fn grep_pattern(sections: &SectionMap) -> (r: String)
    ensures
        r@ == grep_text(sections@),
{
    let mut out = String::new();
    let n = sections.sections.len();
    let mut k: usize = 0;
    proof {
        assert(out@ =~= Seq::<char>::empty());
    }
    while k < n
        invariant
            n == sections.sections@.len(),
            k <= n,
            out@ + alias_alternatives(sections@, k as int) == alias_alternatives(sections@, 0),
        decreases n - k,
    {
        let sec = &sections.sections[k];
        let ghost before = out@;
        let ghost al = sec@.1;
        let m = sec.aliases.len();
        let mut j: usize = 0;
        while j < m
            invariant
                m == sec.aliases@.len(),
                al == strings_view(sec.aliases@),
                j <= m,
                out@ + section_alternatives(al, j as int) == before + section_alternatives(al, 0),
            decreases m - j,
        {
            let ghost prev = out@;
            out.append("^");
            out.append(sec.aliases[j].as_str());
            out.append("|");
            proof {
                assert(prev + section_alternatives(al, j as int) =~= out@ + section_alternatives(al, j + 1));
            }
            j = j + 1;
        }
        proof {
            assert(sections@[k as int] == sec@);
            assert(out@ =~= out@ + section_alternatives(al, m as int));
            assert(before + alias_alternatives(sections@, k as int) =~= out@ + alias_alternatives(sections@, k + 1));
        }
        k = k + 1;
    }
    proof {
        assert(out@ =~= out@ + alias_alternatives(sections@, n as int));
    }
    out.append("BREAKING");
    out
}

/// Everything a run needs: the commit range, the release number, how to
/// write links, where the changelog lives, and the alias table.
#[derive(Debug, Clone)]
pub struct Clog {
    pub grep: String,
    pub format: String,
    pub repo: String,
    pub link_style: LinkStyle,
    pub version: String,
    pub patch_ver: bool,
    pub subtitle: String,
    pub from: String,
    pub to: String,
    pub changelog: String,
    pub section_map: SectionMap,
}

/// The first eight characters of a commit hash (all of it when shorter).
pub open spec fn short_hash(h: Seq<char>) -> Seq<char> {
    if h.len() <= 8 {
        h
    } else {
        h.subrange(0, 8)
    }
}

/// The values a configuration file sets; `None` where it is silent.
#[derive(Debug, Clone)]
pub struct FileConfig {
    pub from_latest_tag: bool,
    pub repository: Option<String>,
    pub subtitle: Option<String>,
    pub link_style: Option<String>,
    pub outfile: Option<String>,
    pub sections: Vec<Section>,
}

/// The values the command line sets; `None` or `false` where it is silent.
#[derive(Debug, Clone)]
pub struct CliArgs {
    pub repository: Option<String>,
    pub from: Option<String>,
    pub from_latest_tag: bool,
    pub major: bool,
    pub minor: bool,
    pub patch: bool,
    pub subtitle: Option<String>,
    pub to: Option<String>,
    pub outfile: Option<String>,
    pub link_style: Option<String>,
    pub setversion: Option<String>,
}

/// The table after registering the sections `secs[k..]` in order, each
/// replacing the aliases of a section of its name or appended as new.
pub open spec fn overlay(t: Seq<SectionView>, secs: Seq<SectionView>, k: int) -> Seq<SectionView>
    decreases secs.len() - k,
{
    if 0 <= k < secs.len() {
        overlay(with_section(t, secs[k].0, secs[k].1), secs, k + 1)
    } else {
        t
    }
}

impl Clog {
    pub open spec fn wf(&self) -> bool {
        &&& self.section_map.wf()
        &&& self.grep@ == grep_text(self.section_map@)
    }

    /// The default configuration; the release number defaults to the short
    /// form of `last_commit`, the hash of the newest commit.
    pub fn new(last_commit: &str) -> (r: Clog)
        ensures
            r.wf(),
            r.section_map@ == SectionMap::defaults_view(),
            r.format@ == "%H%n%s%n%b%n==END=="@,
            r.repo@ == Seq::<char>::empty(),
            r.link_style == LinkStyle::Github,
            r.version@ == short_hash(last_commit@),
            !r.patch_ver,
            r.subtitle@ == Seq::<char>::empty(),
            r.from@ == Seq::<char>::empty(),
            r.to@ == "HEAD"@,
            r.changelog@ == "changelog.md"@,
    {
        let sections = SectionMap::defaults();
        let n = last_commit.unicode_len();
        let cut = if n <= 8 { n } else { 8 };
        proof {
            reveal_strlit("");
        }
        Clog {
            grep: grep_pattern(&sections),
            format: owned("%H%n%s%n%b%n==END=="),
            repo: owned(""),
            link_style: LinkStyle::Github,
            version: owned(last_commit.substring_char(0, cut)),
            patch_ver: false,
            subtitle: owned(""),
            from: owned(""),
            to: owned("HEAD"),
            changelog: owned("changelog.md"),
            section_map: sections,
        }
    }

    /// The canonical section for a commit-type alias.
    pub fn section_for(&self, alias: &str) -> (r: &String)
        requires
            self.wf(),
        ensures
            r@ == crate::sections::resolve(self.section_map@, alias@),
    {
        self.section_map.section_for(alias)
    }
}


/// The increment the command line asks for: major before minor before patch.
pub open spec fn chosen_bump(args: CliArgs) -> Option<Bump> {
    if args.major {
        Some(Bump::Major)
    } else if args.minor {
        Some(Bump::Minor)
    } else if args.patch {
        Some(Bump::Patch)
    } else {
        None
    }
}

/// A chosen text, or `keep` when none was given.
pub open spec fn or_keep(o: Option<String>, keep: Seq<char>) -> Seq<char> {
    match o {
        Some(s) => s@,
        None => keep,
    }
}

/// Whether a link-style setting names a known style or is absent.
pub open spec fn style_ok(o: Option<String>) -> bool {
    match o {
        Some(s) => style_named(s@) is Some,
        None => true,
    }
}

fn opt_text(o: &Option<String>, keep: &String) -> (r: String)
    ensures
        r@ == or_keep(*o, keep@),
{
    match o {
        Some(s) => clone_text(s),
        None => clone_text(keep),
    }
}

fn clone_section_map(m: &SectionMap) -> (r: SectionMap)
    ensures
        r@ == m@,
{
    let mut out: Vec<Section> = Vec::new();
    let mut i: usize = 0;
    while i < m.sections.len()
        invariant
            i <= m.sections@.len(),
            out@.len() == i,
            forall|k: int| 0 <= k < i ==> #[trigger] out@[k]@ == m.sections@[k]@,
        decreases m.sections@.len() - i,
    {
        let s = &m.sections[i];
        out.push(Section { name: clone_text(&s.name), aliases: clone_strings(&s.aliases) });
        i = i + 1;
    }
    let r = SectionMap { sections: out };
    proof {
        assert(r@ =~= m@);
    }
    r
}

impl Clog {
    /// Overlays the values of a configuration file. `latest_tag` is the
    /// newest tagged commit, the start of the range when the file asks for it.
    /// Fails, changing nothing, on an unknown link style or an alias that two
    /// sections claim.
    pub fn apply_file_config(&mut self, cfg: &FileConfig, latest_tag: &str) -> (r: Result<(), ClogError>)
        requires
            old(self).wf(),
        ensures
            final(self).wf(),
            r is Ok <==> style_ok(cfg.link_style) && table_wf(
                overlay(old(self).section_map@, cfg.sections@.map_values(|s: Section| s@), 0),
            ),
            !style_ok(cfg.link_style) ==> r matches Err(ClogError::UnknownLinkStyle(_)),
            style_ok(cfg.link_style) && r is Err ==> (r matches Err(ClogError::DuplicateAlias(a))
                && shared(overlay(old(self).section_map@, cfg.sections@.map_values(|s: Section| s@), 0), a@)),
            r is Err ==> *final(self) == *old(self),
            r is Ok ==> {
                &&& final(self).section_map@ == overlay(
                    old(self).section_map@,
                    cfg.sections@.map_values(|s: Section| s@),
                    0,
                )
                &&& final(self).from@ == (if cfg.from_latest_tag { latest_tag@ } else { old(self).from@ })
                &&& final(self).repo@ == or_keep(cfg.repository, Seq::empty())
                &&& final(self).subtitle@ == or_keep(cfg.subtitle, Seq::empty())
                &&& final(self).link_style == (match cfg.link_style {
                    Some(s) => style_named(s@)->Some_0,
                    None => LinkStyle::Github,
                })
                &&& final(self).changelog@ == or_keep(cfg.outfile, old(self).changelog@)
                &&& final(self).version == old(self).version
                &&& final(self).patch_ver == old(self).patch_ver
                &&& final(self).to == old(self).to
                &&& final(self).format == old(self).format
            },
    {
        let style = match &cfg.link_style {
            Some(name) => match LinkStyle::from_name(name.as_str()) {
                Some(st) => st,
                None => return Err(ClogError::UnknownLinkStyle(clone_text(name))),
            },
            None => LinkStyle::Github,
        };
        let ghost secs_in = cfg.sections@.map_values(|s: Section| s@);
        let mut table = clone_section_map(&self.section_map);
        let mut k: usize = 0;
        while k < cfg.sections.len()
            invariant
                names_ok(table@),
                self.wf(),
                *self == *old(self),
                style_ok(cfg.link_style),
                k <= cfg.sections@.len(),
                secs_in == cfg.sections@.map_values(|s: Section| s@),
                overlay(self.section_map@, secs_in, 0) == overlay(table@, secs_in, k as int),
            decreases cfg.sections@.len() - k,
        {
            let sec = &cfg.sections[k];
            table.overlay_section(sec.name.as_str(), clone_strings(&sec.aliases));
            proof {
                assert(secs_in[k as int] == sec@);
            }
            k = k + 1;
        }
        proof {
            assert(table@ == overlay(table@, secs_in, k as int));
        }
        match table.shared_alias() {
            Some(a) => {
                return Err(ClogError::DuplicateAlias(a));
            },
            None => {},
        }
        let from = if cfg.from_latest_tag { owned(latest_tag) } else { clone_text(&self.from) };
        let empty = owned("");
        proof {
            reveal_strlit("");
        }
        self.repo = opt_text(&cfg.repository, &empty);
        self.subtitle = opt_text(&cfg.subtitle, &empty);
        self.changelog = opt_text(&cfg.outfile, &self.changelog);
        self.from = from;
        self.link_style = style;
        self.grep = grep_pattern(&table);
        self.section_map = table;
        Ok(())
    }
}


impl Clog {
    /// Overlays the command-line values. The release number is the one set
    /// outright, else the prior tag `latest_tag_ver` bumped as asked, else
    /// unchanged; `latest_tag` starts the range when asked. Fails, changing
    /// nothing, when the bump cannot be computed or the link style is unknown.
    pub fn apply_args(&mut self, args: &CliArgs, latest_tag: &str, latest_tag_ver: &str) -> (r: Result<
        (),
        ClogError,
    >)
        requires
            old(self).wf(),
        ensures
            final(self).wf(),
            r is Err ==> *final(self) == *old(self),
            args.setversion is None && chosen_bump(*args) is Some && bump_result(
                latest_tag_ver@,
                chosen_bump(*args)->Some_0,
            ) is None ==> r matches Err(ClogError::InvalidVersion(_)),
            r is Ok <==> style_ok(args.link_style) && !(args.setversion is None && chosen_bump(*args) is Some
                && bump_result(latest_tag_ver@, chosen_bump(*args)->Some_0) is None),
            r is Ok ==> {
                &&& final(self).version@ == (match args.setversion {
                    Some(v) => v@,
                    None => match chosen_bump(*args) {
                        Some(b) => bump_result(latest_tag_ver@, b)->Some_0,
                        None => old(self).version@,
                    },
                })
                &&& final(self).patch_ver == (if args.setversion is None && chosen_bump(*args) == Some(Bump::Patch) {
                    true
                } else {
                    old(self).patch_ver
                })
                &&& final(self).from@ == (match args.from {
                    Some(f) => f@,
                    None => if args.from_latest_tag { latest_tag@ } else { old(self).from@ },
                })
                &&& final(self).repo@ == or_keep(args.repository, old(self).repo@)
                &&& final(self).subtitle@ == or_keep(args.subtitle, old(self).subtitle@)
                &&& final(self).to@ == or_keep(args.to, old(self).to@)
                &&& final(self).changelog@ == or_keep(args.outfile, old(self).changelog@)
                &&& final(self).link_style == (match args.link_style {
                    Some(s) => style_named(s@)->Some_0,
                    None => old(self).link_style,
                })
                &&& final(self).section_map == old(self).section_map
                &&& final(self).grep == old(self).grep
                &&& final(self).format == old(self).format
            },
    {
        let mut patch_ver = self.patch_ver;
        let version = match &args.setversion {
            Some(v) => clone_text(v),
            None => {
                let bump = if args.major {
                    Some(Bump::Major)
                } else if args.minor {
                    Some(Bump::Minor)
                } else if args.patch {
                    Some(Bump::Patch)
                } else {
                    None
                };
                match bump {
                    Some(b) => {
                        match bump_version(latest_tag_ver, b) {
                            Ok(v) => {
                                if b == Bump::Patch {
                                    patch_ver = true;
                                }
                                v
                            },
                            Err(e) => return Err(e),
                        }
                    },
                    None => clone_text(&self.version),
                }
            },
        };
        let style = match &args.link_style {
            Some(name) => match LinkStyle::from_name(name.as_str()) {
                Some(st) => st,
                None => return Err(ClogError::UnknownLinkStyle(clone_text(name))),
            },
            None => self.link_style,
        };
        let from = match &args.from {
            Some(f) => clone_text(f),
            None => if args.from_latest_tag { owned(latest_tag) } else { clone_text(&self.from) },
        };
        self.version = version;
        self.patch_ver = patch_ver;
        self.from = from;
        self.repo = opt_text(&args.repository, &self.repo);
        self.subtitle = opt_text(&args.subtitle, &self.subtitle);
        self.to = opt_text(&args.to, &self.to);
        self.changelog = opt_text(&args.outfile, &self.changelog);
        self.link_style = style;
        Ok(())
    }
}

} // verus!
