use clog::{
    aggregate, apply_bump, bump_version, commit_link_text, grep_pattern, issue_link_text,
    parse_log, parse_raw_commit, parse_subject_line, render, render_version, Bump, CliArgs, Clog,
    ClogError, Commit, FileConfig, LinkStyle, Section, SectionMap, SemVer,
};

fn s(x: &str) -> String {
    x.to_string()
}

fn commit(ty: &str, comp: &str, subject: &str, hash: &str) -> Commit {
    Commit {
        hash: s(hash),
        subject: s(subject),
        component: s(comp),
        closes: vec![],
        breaks: vec![],
        commit_type: s(ty),
    }
}

#[test]
fn subject_with_component_is_split() {
    let m = SectionMap::defaults();
    let c = parse_raw_commit("abc123\nfeat(parser): add login\n", &m);
    assert_eq!(c.hash, "abc123");
    assert_eq!(c.commit_type, "Features");
    assert_eq!(c.component, "parser");
    assert_eq!(c.subject, "add login");
}

#[test]
fn component_whitespace_is_trimmed() {
    let m = SectionMap::defaults();
    let c = parse_raw_commit("h\nfix(  core ): null check", &m);
    assert_eq!(c.commit_type, "Bug Fixes");
    assert_eq!(c.component, "core");
    assert_eq!(c.subject, "null check");
}

#[test]
fn subject_without_component() {
    let r = parse_subject_line("ft: quick thing").unwrap();
    assert_eq!(r, (s("ft"), s(""), s("quick thing")));
}

#[test]
fn unknown_alias_resolves_to_unknown() {
    let m = SectionMap::defaults();
    let c = parse_raw_commit("h\nchore: update deps", &m);
    assert_eq!(c.commit_type, "Unknown");
}

#[test]
fn non_conventional_subject_is_unknown() {
    let m = SectionMap::defaults();
    let c = parse_raw_commit("h\nno colon here\nbody", &m);
    assert_eq!(c.commit_type, "Unknown");
    assert_eq!(c.subject, "no colon here");
    assert_eq!(c.component, "");
    assert!(parse_subject_line("no colon here").is_none());
}

#[test]
fn missing_lines_are_not_fatal() {
    let m = SectionMap::defaults();
    let c = parse_raw_commit("", &m);
    assert_eq!(c.hash, "");
    assert_eq!(c.commit_type, "Unknown");
    assert!(c.closes.is_empty());
}

#[test]
fn closes_lists_every_issue() {
    let m = SectionMap::defaults();
    let c = parse_raw_commit("h\nfeat: x\nsome text\nCloses #12, #34", &m);
    assert_eq!(c.closes, vec![s("12"), s("34")]);
}

#[test]
fn closes_across_lines_and_keywords() {
    let m = SectionMap::defaults();
    let c = parse_raw_commit("h\nfix: y\nFixes #7\nResolves  #1,#2 and Closes #3\nCloses 9", &m);
    assert_eq!(c.closes, vec![s("7"), s("1"), s("2"), s("3")]);
}

#[test]
fn empty_body_closes_nothing() {
    let m = SectionMap::defaults();
    let c = parse_raw_commit("h\nfix: y", &m);
    assert!(c.closes.is_empty());
    assert!(c.breaks.is_empty());
}

#[test]
fn breaking_marker_is_recorded() {
    let m = SectionMap::defaults();
    let c = parse_raw_commit("h\nfeat: api\nBREAKING CHANGE: renamed", &m);
    assert_eq!(c.breaks, vec![s("BREAKING CHANGE: renamed")]);
}

#[test]
fn section_for_resolves_aliases() {
    let clog = Clog::new("0123456789abcdef");
    assert_eq!(clog.section_for("ft"), "Features");
    assert_eq!(clog.section_for("feat"), "Features");
    assert_eq!(clog.section_for("fx"), "Bug Fixes");
    assert_eq!(clog.section_for("fix"), "Bug Fixes");
    assert_eq!(clog.section_for("unk"), "Unknown");
    assert_eq!(clog.section_for("zzz"), "Unknown");
    assert_eq!(clog.section_for("Feat"), "Unknown");
}

#[test]
fn new_uses_short_hash_and_defaults() {
    let clog = Clog::new("0123456789abcdef");
    assert_eq!(clog.version, "01234567");
    assert_eq!(clog.to, "HEAD");
    assert_eq!(clog.changelog, "changelog.md");
    assert_eq!(clog.format, "%H%n%s%n%b%n==END==");
    assert_eq!(clog.grep, "^ft|^feat|^fx|^fix|^unk|BREAKING");
    assert_eq!(Clog::new("abc").version, "abc");
}

#[test]
fn added_section_and_alias() {
    let mut m = SectionMap::defaults();
    assert!(m.add_section("Docs", vec![s("doc"), s("docs")]).is_ok());
    assert!(m.add_section("Features", vec![s("feature")]).is_ok());
    let clog_grep = grep_pattern(&m);
    assert_eq!(clog_grep, "^feature|^fx|^fix|^unk|^doc|^docs|BREAKING");
    assert_eq!(m.section_for("doc"), "Docs");
    assert_eq!(m.section_for("feature"), "Features");
    assert_eq!(m.section_for("ft"), "Unknown");
}

#[test]
fn duplicate_alias_is_rejected() {
    let mut m = SectionMap::defaults();
    let r = m.add_section("Docs", vec![s("doc"), s("fix")]);
    assert_eq!(r, Err(ClogError::DuplicateAlias(s("fix"))));
    assert_eq!(m.sections.len(), 4);
}

#[test]
fn three_commits_aggregate_to_two_sections() {
    let m = SectionMap::defaults();
    let raw = "a1\nfeat: add login\n\n==END==\nb2\nfix: null check\n\n==END==\nc3\nchore: update deps\n\n==END==\n";
    let commits = parse_log(raw, &m);
    assert_eq!(commits.len(), 2);
    let agg = aggregate(&commits, &m, false);
    assert_eq!(agg.len(), 2);
    assert_eq!(agg[0].title, "Features");
    assert_eq!(agg[0].components.len(), 1);
    assert_eq!(agg[0].components[0].commits.len(), 1);
    assert_eq!(agg[0].components[0].commits[0].subject, "add login");
    assert_eq!(agg[1].title, "Bug Fixes");
    assert_eq!(agg[1].components[0].commits.len(), 1);
}

#[test]
fn components_sorted_and_order_kept() {
    let m = SectionMap::defaults();
    let commits = vec![
        commit("Features", "b", "one", "h1"),
        commit("Features", "a", "two", "h2"),
        commit("Features", "b", "three", "h3"),
        commit("Features", "", "four", "h4"),
        commit("Unknown", "a", "five", "h5"),
    ];
    let agg = aggregate(&commits, &m, false);
    assert_eq!(agg.len(), 1);
    let names: Vec<&str> = agg[0].components.iter().map(|g| g.name.as_str()).collect();
    assert_eq!(names, vec!["", "a", "b"]);
    let b: Vec<&str> = agg[0].components[2].commits.iter().map(|c| c.subject.as_str()).collect();
    assert_eq!(b, vec!["one", "three"]);
}

#[test]
fn breaking_section_comes_first() {
    let m = SectionMap::defaults();
    let mut brk = commit("Features", "", "api", "h1");
    brk.breaks = vec![s("BREAKING: x")];
    let commits = vec![commit("Bug Fixes", "", "fix", "h0"), brk];
    let agg = aggregate(&commits, &m, false);
    let titles: Vec<&str> = agg.iter().map(|g| g.title.as_str()).collect();
    assert_eq!(titles, vec!["Breaking", "Bug Fixes"]);
    let dual = aggregate(&commits, &m, true);
    let titles: Vec<&str> = dual.iter().map(|g| g.title.as_str()).collect();
    assert_eq!(titles, vec!["Breaking", "Features", "Bug Fixes"]);
}

#[test]
fn empty_log_gives_no_sections() {
    let m = SectionMap::defaults();
    let commits = parse_log("", &m);
    assert!(commits.is_empty());
    assert!(aggregate(&commits, &m, false).is_empty());
}

#[test]
fn major_bump_keeps_prefix() {
    assert_eq!(bump_version("v1.2.3", Bump::Major), Ok(s("v2.0.0")));
}

#[test]
fn minor_and_patch_bumps() {
    assert_eq!(bump_version("1.2.3", Bump::Minor), Ok(s("1.3.0")));
    assert_eq!(bump_version("V1.2.3", Bump::Patch), Ok(s("v1.2.4")));
    assert_eq!(bump_version("1.2.3-alpha.1+b5", Bump::Patch), Ok(s("1.2.4-alpha.1+b5")));
    assert_eq!(bump_version("9.19.99", Bump::Patch), Ok(s("9.19.100")));
}

#[test]
fn invalid_tag_is_an_error() {
    assert!(matches!(bump_version("release-1", Bump::Major), Err(ClogError::InvalidVersion(_))));
    assert!(matches!(bump_version("", Bump::Minor), Err(ClogError::InvalidVersion(_))));
    let max = format!("{}.0.0", u64::MAX);
    assert!(matches!(bump_version(&max, Bump::Major), Err(ClogError::InvalidVersion(_))));
}

#[test]
fn bump_and_render_parts() {
    let v = SemVer { major: 3, minor: 4, patch: 5, pre: s(""), build: s("") };
    let b = apply_bump(v, Bump::Minor);
    assert_eq!((b.major, b.minor, b.patch), (3, 5, 0));
    assert_eq!(render_version(true, &b), "v3.5.0");
    assert_eq!(render_version(false, &b), "3.5.0");
}

#[test]
fn links_per_style() {
    let h = "0123456789abcdef";
    let repo = "https://github.com/u/p";
    assert_eq!(
        commit_link_text(LinkStyle::Github, h, repo),
        "[01234567](https://github.com/u/p/commit/0123456789abcdef)"
    );
    assert_eq!(
        commit_link_text(LinkStyle::Stash, h, repo),
        "[01234567](https://github.com/u/p/commits/0123456789abcdef)"
    );
    assert_eq!(commit_link_text(LinkStyle::Gitlab, h, ""), "01234567");
    assert_eq!(issue_link_text(LinkStyle::Gitlab, "12", repo), "[#12](https://github.com/u/p/issues/12)");
    assert_eq!(issue_link_text(LinkStyle::Stash, "12", repo), "#12");
    assert_eq!(LinkStyle::from_name("GitLab"), Some(LinkStyle::Gitlab));
    assert_eq!(LinkStyle::from_name("bitbucket"), None);
}

fn sample_clog() -> Clog {
    let mut clog = Clog::new("0123456789abcdef");
    clog.version = s("v1.0.0");
    clog.repo = s("https://github.com/u/p");
    clog.from = s("v0.9.0");
    clog.subtitle = s("Crazy Release");
    clog
}

#[test]
fn render_document() {
    let clog = sample_clog();
    let mut c = commit("Features", "", "add login", "0123456789abcdef");
    c.closes = vec![s("12"), s("34")];
    let agg = aggregate(&vec![c], &clog.section_map, false);
    let out = render(&clog, "2024-01-02", &agg, "");
    let expected = "<a name=\"v1.0.0\"></a>\n## [v1.0.0](https://github.com/u/p/compare/v0.9.0...HEAD) Crazy Release (2024-01-02)\n\n\n#### Features\n\n* add login ([01234567](https://github.com/u/p/commit/0123456789abcdef), closes [#12](https://github.com/u/p/issues/12), [#34](https://github.com/u/p/issues/34))\n\n";
    assert_eq!(out, expected);
}

#[test]
fn render_nested_components() {
    let mut clog = Clog::new("0123456789abcdef");
    clog.version = s("1.0.1");
    clog.patch_ver = true;
    let commits = vec![
        commit("Bug Fixes", "core", "a", "1111111111"),
        commit("Bug Fixes", "core", "b", "2222222222"),
        commit("Bug Fixes", "ui", "c", "3333333333"),
    ];
    let agg = aggregate(&commits, &clog.section_map, false);
    let out = render(&clog, "2024-01-02", &agg, "");
    let expected = "<a name=\"1.0.1\"></a>\n### 1.0.1 (2024-01-02)\n\n\n#### Bug Fixes\n\n* **core:**\n  * a (11111111)\n  * b (22222222)\n* **ui:** c (33333333)\n\n";
    assert_eq!(out, expected);
}

#[test]
fn rerender_keeps_first_output_as_suffix() {
    let clog = sample_clog();
    let agg = aggregate(&vec![commit("Features", "", "x", "abcdef0123")], &clog.section_map, false);
    let first = render(&clog, "2024-01-02", &agg, "");
    let second = render(&clog, "2024-02-03", &agg, &first);
    assert!(second.ends_with(&first));
    assert!(second.len() > first.len());
}

#[test]
fn file_config_overlay() {
    let mut clog = Clog::new("0123456789abcdef");
    let cfg = FileConfig {
        from_latest_tag: true,
        repository: Some(s("https://gitlab.com/u/p")),
        subtitle: None,
        link_style: Some(s("gitlab")),
        outfile: Some(s("CHANGES.md")),
        sections: vec![Section { name: s("Docs"), aliases: vec![s("doc")] }],
    };
    assert!(clog.apply_file_config(&cfg, "abc").is_ok());
    assert_eq!(clog.from, "abc");
    assert_eq!(clog.repo, "https://gitlab.com/u/p");
    assert_eq!(clog.link_style, LinkStyle::Gitlab);
    assert_eq!(clog.changelog, "CHANGES.md");
    assert_eq!(clog.section_for("doc"), "Docs");
    assert_eq!(clog.grep, "^ft|^feat|^fx|^fix|^unk|^doc|BREAKING");
}

#[test]
fn file_config_errors_change_nothing() {
    let mut clog = Clog::new("0123456789abcdef");
    let bad_style = FileConfig {
        from_latest_tag: false,
        repository: None,
        subtitle: None,
        link_style: Some(s("bitbucket")),
        outfile: None,
        sections: vec![],
    };
    assert_eq!(clog.apply_file_config(&bad_style, ""), Err(ClogError::UnknownLinkStyle(s("bitbucket"))));
    let dup = FileConfig {
        from_latest_tag: false,
        repository: None,
        subtitle: None,
        link_style: None,
        outfile: None,
        sections: vec![Section { name: s("Docs"), aliases: vec![s("feat")] }],
    };
    assert_eq!(clog.apply_file_config(&dup, ""), Err(ClogError::DuplicateAlias(s("feat"))));
    assert_eq!(clog.section_map.sections.len(), 4);
}

fn no_args() -> CliArgs {
    CliArgs {
        repository: None,
        from: None,
        from_latest_tag: false,
        major: false,
        minor: false,
        patch: false,
        subtitle: None,
        to: None,
        outfile: None,
        link_style: None,
        setversion: None,
    }
}

#[test]
fn args_bump_version() {
    let mut clog = Clog::new("0123456789abcdef");
    let mut a = no_args();
    a.major = true;
    a.to = Some(s("v9"));
    assert!(clog.apply_args(&a, "tagsha", "v1.2.3").is_ok());
    assert_eq!(clog.version, "v2.0.0");
    assert!(!clog.patch_ver);
    assert_eq!(clog.to, "v9");
    let mut p = no_args();
    p.patch = true;
    p.from_latest_tag = true;
    assert!(clog.apply_args(&p, "tagsha", "1.2.3").is_ok());
    assert_eq!(clog.version, "1.2.4");
    assert!(clog.patch_ver);
    assert_eq!(clog.from, "tagsha");
}

#[test]
fn args_setversion_and_errors() {
    let mut clog = Clog::new("0123456789abcdef");
    let mut a = no_args();
    a.setversion = Some(s("7.7.7"));
    a.major = true;
    assert!(clog.apply_args(&a, "", "garbage").is_ok());
    assert_eq!(clog.version, "7.7.7");
    let mut b = no_args();
    b.minor = true;
    assert!(matches!(clog.apply_args(&b, "", "garbage"), Err(ClogError::InvalidVersion(_))));
    assert_eq!(clog.version, "7.7.7");
}

#[test]
fn subject_text_is_kept_verbatim() {
    let m = SectionMap::defaults();
    let c = parse_raw_commit("h\nx(c): y ", &m);
    assert_eq!(c.subject, "y ");
    let d = parse_raw_commit("h\nfeat:  two spaces", &m);
    assert_eq!(d.subject, " two spaces");
    let e = parse_raw_commit("h\nfeat:tight", &m);
    assert_eq!(e.subject, "tight");
}

#[test]
fn overlay_is_checked_once_finished() {
    let mut clog = Clog::new("0123456789abcdef");
    let cfg = FileConfig {
        from_latest_tag: false,
        repository: None,
        subtitle: None,
        link_style: None,
        outfile: None,
        sections: vec![
            Section { name: s("Docs"), aliases: vec![s("ft")] },
            Section { name: s("Features"), aliases: vec![s("feature")] },
        ],
    };
    assert!(clog.apply_file_config(&cfg, "").is_ok());
    assert_eq!(clog.section_for("ft"), "Docs");
    assert_eq!(clog.section_for("feature"), "Features");
    assert_eq!(clog.section_for("feat"), "Unknown");
}

#[test]
fn added_documentation_section_resolves() {
    let mut clog = Clog::new("0123456789abcdef");
    let cfg = FileConfig {
        from_latest_tag: false,
        repository: None,
        subtitle: None,
        link_style: None,
        outfile: None,
        sections: vec![Section { name: s("Documentation"), aliases: vec![s("docs")] }],
    };
    assert!(clog.apply_file_config(&cfg, "").is_ok());
    assert_eq!(clog.section_for("docs"), "Documentation");
    assert_eq!(clog.section_for("feat"), "Features");
    assert_eq!(clog.section_for("nope"), "Unknown");
}
