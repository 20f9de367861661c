use vstd::prelude::*;

use crate::error::ClogError;
use crate::text::{owned, text_eq};

verus! {

/// A section as a name and its list of alias tokens.
pub type SectionView = (Seq<char>, Seq<Seq<char>>);

/// The name of the fallback section.
pub open spec fn unknown_name() -> Seq<char> {
    "Unknown"@
}

/// The views of a list of strings.
pub open spec fn strings_view(v: Seq<String>) -> Seq<Seq<char>> {
    v.map_values(|s: String| s@)
}

/// The section that claims `a`, scanning from position `i` on; "Unknown"
/// when no section from there on claims it.
pub open spec fn resolve_from(secs: Seq<SectionView>, a: Seq<char>, i: int) -> Seq<char>
    decreases secs.len() - i,
{
    if i < 0 || i >= secs.len() {
        unknown_name()
    } else if secs[i].1.contains(a) {
        secs[i].0
    } else {
        resolve_from(secs, a, i + 1)
    }
}

/// The canonical section for alias `a`.
pub open spec fn resolve(secs: Seq<SectionView>, a: Seq<char>) -> Seq<char> {
    resolve_from(secs, a, 0)
}

/// Whether some section other than the one named `name` claims `a`.
pub open spec fn claimed_elsewhere(secs: Seq<SectionView>, name: Seq<char>, a: Seq<char>) -> bool {
    exists|i: int| 0 <= i < secs.len() && secs[i].0 != name && #[trigger] secs[i].1.contains(a)
}

/// Whether `name` is the name of a section.
pub open spec fn has_section(secs: Seq<SectionView>, name: Seq<char>) -> bool {
    exists|i: int| 0 <= i < secs.len() && #[trigger] secs[i].0 == name
}

/// The table after registering `name` with aliases `al`: the aliases of an
/// existing section of that name are replaced, a new name is appended.
pub open spec fn with_section(secs: Seq<SectionView>, name: Seq<char>, al: Seq<Seq<char>>) -> Seq<
    SectionView,
> {
    if has_section(secs, name) {
        let i = choose|i: int| 0 <= i < secs.len() && #[trigger] secs[i].0 == name;
        secs.update(i, (name, al))
    } else {
        secs.push((name, al))
    }
}

/// Section names are unique, each alias belongs to at most one section, and
/// the fallback section exists.
pub open spec fn table_wf(secs: Seq<SectionView>) -> bool {
    &&& forall|i: int, j: int|
        0 <= i < secs.len() && 0 <= j < secs.len() && i != j ==> #[trigger] secs[i].0
            != #[trigger] secs[j].0
    &&& forall|i: int, j: int, a: Seq<char>|
        0 <= i < secs.len() && 0 <= j < secs.len() && #[trigger] secs[i].1.contains(a)
            && #[trigger] secs[j].1.contains(a) ==> i == j
    &&& has_section(secs, unknown_name())
}

/// A named changelog category and the alias tokens that select it.
#[derive(Debug, Clone)]
pub struct Section {
    pub name: String,
    pub aliases: Vec<String>,
}

impl View for Section {
    type V = SectionView;

    open spec fn view(&self) -> SectionView {
        (self.name@, strings_view(self.aliases@))
    }
}

/// The alias table, in the order in which sections were registered.
#[derive(Debug, Clone)]
pub struct SectionMap {
    pub sections: Vec<Section>,
}

impl View for SectionMap {
    type V = Seq<SectionView>;

    open spec fn view(&self) -> Seq<SectionView> {
        self.sections@.map_values(|s: Section| s@)
    }
}

impl SectionMap {
    pub open spec fn wf(&self) -> bool {
        table_wf(self@)
    }

    /// The default table as plain values.
    pub open spec fn defaults_view() -> Seq<SectionView> {
        seq![
            ("Features"@, seq!["ft"@, "feat"@]),
            ("Bug Fixes"@, seq!["fx"@, "fix"@]),
            (unknown_name(), seq!["unk"@]),
            ("Breaking"@, Seq::<Seq<char>>::empty()),
        ]
    }

    /// The default table: Features, Bug Fixes, Unknown and Breaking.
    pub fn defaults() -> (r: SectionMap)
        ensures
            r@ == Self::defaults_view(),
            r.wf(),
    {
        let features = Section { name: owned("Features"), aliases: vec![owned("ft"), owned("feat")] };
        let fixes = Section { name: owned("Bug Fixes"), aliases: vec![owned("fx"), owned("fix")] };
        let unknown = Section { name: owned("Unknown"), aliases: vec![owned("unk")] };
        let breaking = Section { name: owned("Breaking"), aliases: Vec::new() };
        let r = SectionMap { sections: vec![features, fixes, unknown, breaking] };
        proof {
            reveal_strlit("Features");
            reveal_strlit("Bug Fixes");
            reveal_strlit("Unknown");
            reveal_strlit("Breaking");
            reveal_strlit("ft");
            reveal_strlit("feat");
            reveal_strlit("fx");
            reveal_strlit("fix");
            reveal_strlit("unk");
            let s = r@;
            assert(strings_view(features.aliases@) =~= seq!["ft"@, "feat"@]);
            assert(strings_view(fixes.aliases@) =~= seq!["fx"@, "fix"@]);
            assert(strings_view(unknown.aliases@) =~= seq!["unk"@]);
            assert(strings_view(breaking.aliases@) =~= Seq::<Seq<char>>::empty());
            assert(s =~= seq![
                ("Features"@, seq!["ft"@, "feat"@]),
                ("Bug Fixes"@, seq!["fx"@, "fix"@]),
                (unknown_name(), seq!["unk"@]),
                ("Breaking"@, Seq::<Seq<char>>::empty()),
            ]);
            assert(s[2].0 == unknown_name());
            assert(s[0].0[0] == 'F' && s[1].0[0] == 'B' && s[2].0[0] == 'U' && s[3].0[0] == 'B');
            assert(s[1].0[1] == 'u' && s[3].0[1] == 'r');
            assert forall|i: int, j: int|
                0 <= i < s.len() && 0 <= j < s.len() && i != j implies #[trigger] s[i].0
                != #[trigger] s[j].0 by {
                if s[i].0 == s[j].0 {
                    assert(s[i].0[0] == s[j].0[0]);
                    assert(s[i].0[1] == s[j].0[1]);
                }
            }
            assert forall|i: int, j: int, a: Seq<char>|
                0 <= i < s.len() && 0 <= j < s.len() && #[trigger] s[i].1.contains(a)
                    && #[trigger] s[j].1.contains(a) implies i == j by {
                let ki = choose|k: int| 0 <= k < s[i].1.len() && s[i].1[k] == a;
                let kj = choose|k: int| 0 <= k < s[j].1.len() && s[j].1[k] == a;
                assert(s[i].1[ki] == a);
                assert(s[j].1[kj] == a);
                assert(a.len() >= 2);
                if i == 0 {
                    assert(a[0] == 'f' && (a[1] == 't' || a[1] == 'e'));
                } else if i == 1 {
                    assert(a[0] == 'f' && (a[1] == 'x' || a[1] == 'i'));
                } else {
                    assert(i == 2 && a[0] == 'u');
                }
                if j == 0 {
                    assert(a[0] == 'f' && (a[1] == 't' || a[1] == 'e'));
                } else if j == 1 {
                    assert(a[0] == 'f' && (a[1] == 'x' || a[1] == 'i'));
                } else {
                    assert(j == 2 && a[0] == 'u');
                }
            }
        }
        r
    }

    /// The canonical section that claims `alias`, or the fallback section.
    pub fn section_for(&self, alias: &str) -> (r: &String)
        requires
            self.wf(),
        ensures
            r@ == resolve(self@, alias@),
    {
        let n = self.sections.len();
        let mut i: usize = 0;
        while i < n
            invariant
                self.wf(),
                n == self.sections@.len(),
                i <= n,
                resolve(self@, alias@) == resolve_from(self@, alias@, i as int),
            decreases n - i,
        {
            let sec = &self.sections[i];
            let m = sec.aliases.len();
            let mut j: usize = 0;
            while j < m
                invariant
                    i < n,
                    resolve(self@, alias@) == resolve_from(self@, alias@, i as int),
                    n == self.sections@.len(),
                    sec == self.sections@[i as int],
                    m == sec.aliases@.len(),
                    j <= m,
                    forall|l: int| 0 <= l < j ==> sec.aliases@[l]@ != alias@,
                decreases m - j,
            {
                if text_eq(sec.aliases[j].as_str(), alias) {
                    proof {
                        assert(self@[i as int] == sec@);
                        assert(sec@.1[j as int] == alias@);
                        assert(self@[i as int].1.contains(alias@));
                        assert(resolve_from(self@, alias@, i as int) == self@[i as int].0);
                        assert(self@[i as int].0 == sec.name@);
                    }
                    return &sec.name;
                }
                j = j + 1;
            }
            proof {
                assert(self@[i as int] == sec@);
                assert(!self@[i as int].1.contains(alias@));
            }
            i = i + 1;
        }
        proof {
            assert(resolve_from(self@, alias@, n as int) == unknown_name());
        }
        let mut k: usize = 0;
        while k < n
            invariant
                self.wf(),
                n == self.sections@.len(),
                k <= n,
                resolve(self@, alias@) == unknown_name(),
                forall|l: int| 0 <= l < k ==> self@[l].0 != unknown_name(),
            decreases n - k,
        {
            if text_eq(self.sections[k].name.as_str(), "Unknown") {
                proof {
                    assert(self@[k as int] == self.sections@[k as int]@);
                }
                return &self.sections[k].name;
            }
            k = k + 1;
        }
        proof {
            let w = choose|l: int| 0 <= l < self@.len() && #[trigger] self@[l].0 == unknown_name();
            assert(self@[w].0 == unknown_name());
        }
        &self.sections[0].name
    }
}


/// Whether `sec` lists `a` among its aliases.
fn section_claims(sec: &Section, a: &str) -> (r: bool)
    ensures
        r == sec@.1.contains(a@),
{
    let m = sec.aliases.len();
    let mut j: usize = 0;
    while j < m
        invariant
            m == sec.aliases@.len(),
            j <= m,
            forall|l: int| 0 <= l < j ==> sec.aliases@[l]@ != a@,
        decreases m - j,
    {
        if text_eq(sec.aliases[j].as_str(), a) {
            proof {
                assert(sec@.1[j as int] == a@);
            }
            return true;
        }
        j = j + 1;
    }
    proof {
        assert(!sec@.1.contains(a@)) by {
            if sec@.1.contains(a@) {
                let l = choose|l: int| 0 <= l < sec@.1.len() && sec@.1[l] == a@;
                assert(sec.aliases@[l]@ == a@);
            }
        }
    }
    false
}

/// Resolution scanned from `k` finds the section that claims the alias, or
/// the fallback when none from `k` on claims it.
proof fn lemma_resolve_from(secs: Seq<SectionView>, a: Seq<char>, k: int)
    requires
        table_wf(secs),
        0 <= k <= secs.len(),
    ensures
        forall|i: int|
            k <= i < secs.len() && #[trigger] secs[i].1.contains(a) ==> resolve_from(secs, a, k)
                == secs[i].0,
        (forall|i: int| k <= i < secs.len() ==> !(#[trigger] secs[i].1.contains(a)))
            ==> resolve_from(secs, a, k) == unknown_name(),
    decreases secs.len() - k,
{
    if k < secs.len() {
        lemma_resolve_from(secs, a, k + 1);
    }
}

/// In a well-formed table an alias resolves to the one section that
/// registered it.
pub proof fn lemma_resolve_registered(secs: Seq<SectionView>, i: int, a: Seq<char>)
    requires
        table_wf(secs),
        0 <= i < secs.len(),
        secs[i].1.contains(a),
    ensures
        resolve(secs, a) == secs[i].0,
{
    lemma_resolve_from(secs, a, 0);
}

/// An alias that no section registered resolves to "Unknown".
pub proof fn lemma_resolve_absent(secs: Seq<SectionView>, a: Seq<char>)
    requires
        table_wf(secs),
        forall|i: int| 0 <= i < secs.len() ==> !(#[trigger] secs[i].1.contains(a)),
    ensures
        resolve(secs, a) == unknown_name(),
{
    lemma_resolve_from(secs, a, 0);
}

impl SectionMap {
    /// Registers section `name` with `aliases`, replacing the aliases of an
    /// existing section of that name. Fails, leaving the table unchanged,
    /// when one of the aliases already belongs to another section.
    pub fn add_section(&mut self, name: &str, aliases: Vec<String>) -> (r: Result<(), ClogError>)
        requires
            old(self).wf(),
        ensures
            final(self).wf(),
            r is Ok <==> (forall|k: int|
                0 <= k < aliases@.len() ==> !claimed_elsewhere(old(self)@, name@, #[trigger] aliases@[k]@)),
            r is Ok ==> final(self)@ == with_section(old(self)@, name@, strings_view(aliases@)),
            r is Err ==> final(self)@ == old(self)@,
            r matches Err(e) ==> (e matches ClogError::DuplicateAlias(a) && claimed_elsewhere(
                old(self)@,
                name@,
                a@,
            ) && strings_view(aliases@).contains(a@)),
    {
        let n = self.sections.len();
        let ghost secs = self@;
        let ghost al = strings_view(aliases@);
        let mut k: usize = 0;
        while k < aliases.len()
            invariant
                self@ == secs,
                secs == old(self)@,
                table_wf(secs),
                n == self.sections@.len(),
                al == strings_view(aliases@),
                k <= aliases@.len(),
                forall|q: int| 0 <= q < k ==> !claimed_elsewhere(secs, name@, #[trigger] aliases@[q]@),
            decreases aliases@.len() - k,
        {
            let a = aliases[k].as_str();
            let mut i: usize = 0;
            while i < n
                invariant
                    self@ == secs,
                    secs == old(self)@,
                    table_wf(secs),
                    al == strings_view(aliases@),
                    n == self.sections@.len(),
                    k < aliases@.len(),
                    a@ == aliases@[k as int]@,
                    i <= n,
                    forall|l: int| 0 <= l < i ==> !(secs[l].0 != name@ && #[trigger] secs[l].1.contains(a@)),
                decreases n - i,
            {
                let sec = &self.sections[i];
                if !text_eq(sec.name.as_str(), name) && section_claims(sec, a) {
                    proof {
                        assert(secs[i as int] == sec@);
                        assert(al[k as int] == a@);
                        assert(secs[i as int].1.contains(a@));
                        assert(claimed_elsewhere(secs, name@, aliases@[k as int]@));
                    }
                    return Err(ClogError::DuplicateAlias(owned(a)));
                }
                proof {
                    assert(secs[i as int] == sec@);
                }
                i = i + 1;
            }
            proof {
                assert(!claimed_elsewhere(secs, name@, a@));
            }
            k = k + 1;
        }
        let mut i: usize = 0;
        while i < n
            invariant
                self@ == secs,
                secs == old(self)@,
                table_wf(secs),
                al == strings_view(aliases@),
                forall|q: int| 0 <= q < aliases@.len() ==> !claimed_elsewhere(secs, name@, #[trigger] aliases@[q]@),
                n == self.sections@.len(),
                i <= n,
                forall|l: int| 0 <= l < i ==> secs[l].0 != name@,
            decreases n - i,
        {
            if text_eq(self.sections[i].name.as_str(), name) {
                let sec = Section { name: owned(name), aliases };
                self.sections.set(i, sec);
                proof {
                    assert(secs[i as int].0 == name@);
                    let c = choose|j: int| 0 <= j < secs.len() && #[trigger] secs[j].0 == name@;
                    assert(c == i);
                    assert(self@ =~= secs.update(i as int, (name@, al)));
                    assert forall|p: int, j: int, a: Seq<char>|
                        0 <= p < self@.len() && 0 <= j < self@.len() && #[trigger] self@[p].1.contains(a)
                            && #[trigger] self@[j].1.contains(a) implies p == j by {
                        if p != j && (p == i || j == i) {
                            let o = if p == i { j } else { p };
                            assert(secs[o].1.contains(a) && secs[o].0 != name@);
                            assert(claimed_elsewhere(secs, name@, a));
                            let q = choose|q: int| 0 <= q < al.len() && al[q] == a;
                            assert(al[q] == aliases@[q]@);
                        }
                    }
                    let u = choose|j: int| 0 <= j < secs.len() && #[trigger] secs[j].0 == unknown_name();
                    assert(self@[u].0 == unknown_name());
                }
                return Ok(());
            }
            i = i + 1;
        }
        let sec = Section { name: owned(name), aliases };
        self.sections.push(sec);
        proof {
            assert(!has_section(secs, name@));
            assert(self@ =~= secs.push((name@, al)));
            assert forall|p: int, j: int, a: Seq<char>|
                0 <= p < self@.len() && 0 <= j < self@.len() && #[trigger] self@[p].1.contains(a)
                    && #[trigger] self@[j].1.contains(a) implies p == j by {
                if p != j && (p == n || j == n) {
                    let o = if p == n { j } else { p };
                    assert(secs[o].1.contains(a) && secs[o].0 != name@);
                    assert(claimed_elsewhere(secs, name@, a));
                    let q = choose|q: int| 0 <= q < al.len() && al[q] == a;
                    assert(al[q] == aliases@[q]@);
                }
            }
            let u = choose|j: int| 0 <= j < secs.len() && #[trigger] secs[j].0 == unknown_name();
            assert(self@[u].0 == unknown_name());
        }
        Ok(())
    }
}


/// Section names are unique and the fallback section exists.
pub open spec fn names_ok(secs: Seq<SectionView>) -> bool {
    &&& forall|i: int, j: int|
        0 <= i < secs.len() && 0 <= j < secs.len() && i != j ==> #[trigger] secs[i].0
            != #[trigger] secs[j].0
    &&& has_section(secs, unknown_name())
}

/// No alias is claimed by two different sections.
pub open spec fn aliases_ok(secs: Seq<SectionView>) -> bool {
    forall|i: int, j: int, a: Seq<char>|
        0 <= i < secs.len() && 0 <= j < secs.len() && #[trigger] secs[i].1.contains(a)
            && #[trigger] secs[j].1.contains(a) ==> i == j
}

/// Whether two different sections both claim `a`.
pub open spec fn shared(secs: Seq<SectionView>, a: Seq<char>) -> bool {
    exists|i: int, j: int|
        0 <= i < secs.len() && 0 <= j < secs.len() && i != j && #[trigger] secs[i].1.contains(a)
            && #[trigger] secs[j].1.contains(a)
}

impl SectionMap {
    /// Registers section `name` with `aliases` without looking at the other
    /// sections' aliases: an existing section of that name gets the new
    /// aliases, a new name is appended.
    pub fn overlay_section(&mut self, name: &str, aliases: Vec<String>)
        requires
            names_ok(old(self)@),
        ensures
            names_ok(final(self)@),
            final(self)@ == with_section(old(self)@, name@, strings_view(aliases@)),
    {
        let n = self.sections.len();
        let ghost secs = self@;
        let ghost al = strings_view(aliases@);
        let mut i: usize = 0;
        while i < n
            invariant
                self@ == secs,
                secs == old(self)@,
                names_ok(secs),
                al == strings_view(aliases@),
                n == self.sections@.len(),
                i <= n,
                forall|l: int| 0 <= l < i ==> secs[l].0 != name@,
            decreases n - i,
        {
            if text_eq(self.sections[i].name.as_str(), name) {
                let sec = Section { name: owned(name), aliases };
                self.sections.set(i, sec);
                proof {
                    assert(secs[i as int].0 == name@);
                    let c = choose|j: int| 0 <= j < secs.len() && #[trigger] secs[j].0 == name@;
                    assert(c == i);
                    assert(self@ =~= secs.update(i as int, (name@, al)));
                    let u = choose|j: int| 0 <= j < secs.len() && #[trigger] secs[j].0 == unknown_name();
                    assert(self@[u].0 == unknown_name());
                }
                return;
            }
            i = i + 1;
        }
        let sec = Section { name: owned(name), aliases };
        self.sections.push(sec);
        proof {
            assert(!has_section(secs, name@));
            assert(self@ =~= secs.push((name@, al)));
            let u = choose|j: int| 0 <= j < secs.len() && #[trigger] secs[j].0 == unknown_name();
            assert(self@[u].0 == unknown_name());
        }
    }

    /// An alias that two different sections claim, if there is one.
    pub fn shared_alias(&self) -> (r: Option<String>)
        ensures
            r is None <==> aliases_ok(self@),
            r matches Some(a) ==> shared(self@, a@),
    {
        let ghost secs = self@;
        let n = self.sections.len();
        let mut i: usize = 0;
        while i < n
            invariant
                secs == self@,
                n == self.sections@.len(),
                i <= n,
                forall|p: int, q: int, a: Seq<char>|
                    0 <= p < i && p < q < n && #[trigger] secs[p].1.contains(a) ==> !(#[trigger] secs[q].1.contains(a)),
            decreases n - i,
        {
            let sec = &self.sections[i];
            let m = sec.aliases.len();
            let mut k: usize = 0;
            proof {
                assert(secs[i as int] == sec@);
            }
            while k < m
                invariant
                    secs == self@,
                    n == self.sections@.len(),
                    i < n,
                    secs[i as int] == sec@,
                    m == sec.aliases@.len(),
                    k <= m,
                    forall|p: int, q: int, a: Seq<char>|
                        0 <= p < i && p < q < n && #[trigger] secs[p].1.contains(a) ==> !(#[trigger] secs[q].1.contains(a)),
                    forall|k2: int, q: int| 0 <= k2 < k && i < q < n ==> !(#[trigger] secs[q].1.contains(#[trigger] sec.aliases@[k2]@)),
                decreases m - k,
            {
                let a = sec.aliases[k].as_str();
                let mut j: usize = i + 1;
                while j < n
                    invariant
                        secs == self@,
                        n == self.sections@.len(),
                        i < j <= n,
                        secs[i as int] == sec@,
                        k < m,
                        m == sec.aliases@.len(),
                        a@ == sec.aliases@[k as int]@,
                        forall|q: int| i < q < j ==> !(#[trigger] secs[q].1.contains(a@)),
                    decreases n - j,
                {
                    if section_claims(&self.sections[j], a) {
                        proof {
                            assert(secs[j as int] == self.sections@[j as int]@);
                            assert(sec@.1[k as int] == a@);
                            assert(secs[i as int].1.contains(a@));
                            assert(secs[j as int].1.contains(a@));
                        }
                        return Some(owned(a));
                    }
                    proof {
                        assert(secs[j as int] == self.sections@[j as int]@);
                    }
                    j = j + 1;
                }
                k = k + 1;
            }
            proof {
                assert forall|p: int, q: int, a: Seq<char>|
                    0 <= p < i + 1 && p < q < n && #[trigger] secs[p].1.contains(a) implies !(#[trigger] secs[q].1.contains(a)) by {
                    if p == i {
                        let k2 = choose|k2: int| 0 <= k2 < secs[p].1.len() && secs[p].1[k2] == a;
                        assert(sec.aliases@[k2]@ == a);
                    }
                }
            }
            i = i + 1;
        }
        proof {
            assert forall|p: int, q: int, a: Seq<char>|
                0 <= p < secs.len() && 0 <= q < secs.len() && #[trigger] secs[p].1.contains(a)
                    && #[trigger] secs[q].1.contains(a) implies p == q by {
                if p < q {
                } else if q < p {
                }
            }
        }
        None
    }
}

} // verus!
