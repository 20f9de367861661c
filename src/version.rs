use vstd::prelude::*;

use crate::error::ClogError;
use crate::text::{join2, owned};

verus! {

/// What semver::Version::parse yields for a text: major, minor, patch,
/// pre-release and build metadata, or nothing when the text is rejected.
pub uninterp spec fn semver_parse(s: Seq<char>) -> Option<(u64, u64, u64, Seq<char>, Seq<char>)>;

/// A semantic version as plain values.
#[derive(Debug, Clone)]
pub struct SemVer {
    pub major: u64,
    pub minor: u64,
    pub patch: u64,
    pub pre: String,
    pub build: String,
}

/// Which component of the release number to increment.
#[derive(Debug, Clone, Copy, PartialEq, Eq, Structural)]
pub enum Bump {
    Major,
    Minor,
    Patch,
}

/// Relies on semver::Version::parse, and on the pre-release and build
/// identifiers' `as_str`, to read a version.
#[verifier::external_body]
fn parse_semver(text: &str) -> (r: Result<SemVer, String>)
    ensures
        match r {
            Ok(v) => semver_parse(text@) == Some((v.major, v.minor, v.patch, v.pre@, v.build@)),
            Err(_) => semver_parse(text@) is None,
        },
{
    match semver::Version::parse(text) {
        Ok(v) => Ok(SemVer {
            major: v.major,
            minor: v.minor,
            patch: v.patch,
            pre: v.pre.as_str().to_string(),
            build: v.build.as_str().to_string(),
        }),
        Err(e) => Err(e.to_string()),
    }
}

pub open spec fn digit_char(d: nat) -> char {
    if d == 0 { '0' } else if d == 1 { '1' } else if d == 2 { '2' } else if d == 3 { '3' }
    else if d == 4 { '4' } else if d == 5 { '5' } else if d == 6 { '6' } else if d == 7 { '7' }
    else if d == 8 { '8' } else { '9' }
}

/// The decimal digits of `n`, without leading zeros.
pub open spec fn decimal(n: nat) -> Seq<char>
    decreases n,
{
    if n < 10 {
        seq![digit_char(n)]
    } else {
        decimal(n / 10).push(digit_char(n % 10))
    }
}

/// The digit `d` as a one-character string.
fn digit_text(d: u64) -> (r: String)
    requires
        d < 10,
    ensures
        r@ == seq![digit_char(d as nat)],
{
    if d == 0 {
        let r = "0";
        proof {
            reveal_strlit("0");
            assert(r@ =~= seq!['0']);
        }
        owned(r)
    } else if d == 1 {
        let r = "1";
        proof {
            reveal_strlit("1");
            assert(r@ =~= seq!['1']);
        }
        owned(r)
    } else if d == 2 {
        let r = "2";
        proof {
            reveal_strlit("2");
            assert(r@ =~= seq!['2']);
        }
        owned(r)
    } else if d == 3 {
        let r = "3";
        proof {
            reveal_strlit("3");
            assert(r@ =~= seq!['3']);
        }
        owned(r)
    } else if d == 4 {
        let r = "4";
        proof {
            reveal_strlit("4");
            assert(r@ =~= seq!['4']);
        }
        owned(r)
    } else if d == 5 {
        let r = "5";
        proof {
            reveal_strlit("5");
            assert(r@ =~= seq!['5']);
        }
        owned(r)
    } else if d == 6 {
        let r = "6";
        proof {
            reveal_strlit("6");
            assert(r@ =~= seq!['6']);
        }
        owned(r)
    } else if d == 7 {
        let r = "7";
        proof {
            reveal_strlit("7");
            assert(r@ =~= seq!['7']);
        }
        owned(r)
    } else if d == 8 {
        let r = "8";
        proof {
            reveal_strlit("8");
            assert(r@ =~= seq!['8']);
        }
        owned(r)
    } else {
        let r = "9";
        proof {
            reveal_strlit("9");
            assert(r@ =~= seq!['9']);
        }
        owned(r)
    }
}

/// The decimal digits of `n`.
fn u64_text(n: u64) -> (r: String)
    ensures
        r@ == decimal(n as nat),
    decreases n,
{
    if n < 10 {
        digit_text(n)
    } else {
        let mut s = u64_text(n / 10);
        let d = digit_text(n % 10);
        s.append(d.as_str());
        proof {
            assert(s@ =~= decimal((n / 10) as nat).push(digit_char((n % 10) as nat)));
        }
        s
    }
}

/// A version after the increment: a major bump zeroes minor and patch, a
/// minor bump zeroes patch; pre-release and build are kept.
pub open spec fn bumped(
    v: (u64, u64, u64, Seq<char>, Seq<char>),
    b: Bump,
) -> (int, int, int, Seq<char>, Seq<char>) {
    match b {
        Bump::Major => (v.0 + 1, 0, 0, v.3, v.4),
        Bump::Minor => (v.0 as int, v.1 + 1, 0, v.3, v.4),
        Bump::Patch => (v.0 as int, v.1 as int, v.2 + 1, v.3, v.4),
    }
}

/// The text of a version, `M.m.p`, then `-pre` and `+build` where those are
/// not empty, with a leading `v` when `had_v`.
pub open spec fn version_text(had_v: bool, v: (int, int, int, Seq<char>, Seq<char>)) -> Seq<char> {
    let core = decimal(v.0 as nat) + "."@ + decimal(v.1 as nat) + "."@ + decimal(v.2 as nat);
    let with_pre = if v.3.len() > 0 { core + "-"@ + v.3 } else { core };
    let full = if v.4.len() > 0 { with_pre + "+"@ + v.4 } else { with_pre };
    if had_v { "v"@ + full } else { full }
}

/// Index of the first character of `s` from `i` on that is not 'v' or 'V'.
pub open spec fn skip_v(s: Seq<char>, i: int) -> int
    decreases s.len() - i,
{
    if 0 <= i < s.len() && (s[i] == 'v' || s[i] == 'V') {
        skip_v(s, i + 1)
    } else {
        i
    }
}

/// Whether a tag starts with a 'v' or 'V' prefix.
pub open spec fn has_v(s: Seq<char>) -> bool {
    s.len() > 0 && (s[0] == 'v' || s[0] == 'V')
}

/// A tag without its leading 'v' and 'V' characters.
pub open spec fn strip_v(s: Seq<char>) -> Seq<char> {
    s.subrange(skip_v(s, 0), s.len() as int)
}

/// Whether the increment stays within the range of `u64`.
pub open spec fn bump_fits(v: (u64, u64, u64, Seq<char>, Seq<char>), b: Bump) -> bool {
    match b {
        Bump::Major => v.0 < u64::MAX,
        Bump::Minor => v.1 < u64::MAX,
        Bump::Patch => v.2 < u64::MAX,
    }
}

/// Increments one component of `v`.
pub fn apply_bump(v: SemVer, b: Bump) -> (r: SemVer)
    requires
        bump_fits((v.major, v.minor, v.patch, v.pre@, v.build@), b),
    ensures
        (r.major as int, r.minor as int, r.patch as int, r.pre@, r.build@) == bumped(
            (v.major, v.minor, v.patch, v.pre@, v.build@),
            b,
        ),
{
    match b {
        Bump::Major => SemVer { major: v.major + 1, minor: 0, patch: 0, pre: v.pre, build: v.build },
        Bump::Minor => SemVer { major: v.major, minor: v.minor + 1, patch: 0, pre: v.pre, build: v.build },
        Bump::Patch => SemVer { major: v.major, minor: v.minor, patch: v.patch + 1, pre: v.pre, build: v.build },
    }
}

/// The text of `v`, with a leading 'v' when `had_v`.
pub fn render_version(had_v: bool, v: &SemVer) -> (r: String)
    ensures
        r@ == version_text(had_v, (v.major as int, v.minor as int, v.patch as int, v.pre@, v.build@)),
{
    let a = u64_text(v.major);
    let b = u64_text(v.minor);
    let c = u64_text(v.patch);
    let mut s = join2(a.as_str(), ".");
    s.append(b.as_str());
    s.append(".");
    s.append(c.as_str());
    if v.pre.unicode_len() > 0 {
        s.append("-");
        s.append(v.pre.as_str());
    }
    if v.build.unicode_len() > 0 {
        s.append("+");
        s.append(v.build.as_str());
    }
    if had_v {
        join2("v", s.as_str())
    } else {
        s
    }
}

/// The text of the release number after `b` is applied to the prior tag
/// `tag`; `None` when the tag is no version or the increment overflows.
pub open spec fn bump_result(tag: Seq<char>, b: Bump) -> Option<Seq<char>> {
    match semver_parse(strip_v(tag)) {
        None => None,
        Some(v) => if bump_fits(v, b) {
            Some(version_text(has_v(tag), bumped(v, b)))
        } else {
            None
        },
    }
}

/// The release number after `b` is applied to the prior tag `tag`. A tag
/// may carry a 'v' prefix, which the result keeps as 'v'. Fails when the
/// rest of the tag is not a semantic version, or the increment overflows.
pub fn bump_version(tag: &str, b: Bump) -> (r: Result<String, ClogError>)
    ensures
        match bump_result(tag@, b) {
            Some(t) => r matches Ok(x) && x@ == t,
            None => r matches Err(ClogError::InvalidVersion(_)),
        },
{
    let n = tag.unicode_len();
    let mut i: usize = 0;
    while i < n && (tag.get_char(i) == 'v' || tag.get_char(i) == 'V')
        invariant
            n == tag@.len(),
            i <= n,
            skip_v(tag@, 0) == skip_v(tag@, i as int),
        decreases n - i,
    {
        i = i + 1;
    }
    let had_v = n > 0 && (tag.get_char(0) == 'v' || tag.get_char(0) == 'V');
    let rest = tag.substring_char(i, n);
    match parse_semver(rest) {
        Err(msg) => Err(ClogError::InvalidVersion(msg)),
        Ok(v) => {
            let fits = match b {
                Bump::Major => v.major < u64::MAX,
                Bump::Minor => v.minor < u64::MAX,
                Bump::Patch => v.patch < u64::MAX,
            };
            if !fits {
                return Err(ClogError::InvalidVersion(owned("version number overflows")));
            }
            let nv = apply_bump(v, b);
            Ok(render_version(had_v, &nv))
        },
    }
}

} // verus!
