//! Read-only queries over a loaded catalog.

use vstd::prelude::*;
use crate::model::{
    summaries_view, summary_of, description_of, newest, Catalog, CatalogModel, Module,
    ModuleModel, ModuleSummary, ModuleVersion, SummaryModel, VersionModel,
};
use crate::text::{contains_run, has_infix, same_text};

verus! {

/// Largest number of results that a search returns.
pub const SEARCH_LIMIT: usize = 20;

/// The first module at or after index `i` whose name is exactly `name`.
pub open spec fn first_named_from(mods: Seq<ModuleModel>, name: Seq<char>, i: int) -> Option<ModuleModel>
    decreases mods.len() - i,
{
    if i < 0 || i >= mods.len() {
        None
    } else if mods[i].name == name {
        Some(mods[i])
    } else {
        first_named_from(mods, name, i + 1)
    }
}

/// The first version at or after index `i` whose identifier is exactly `version`.
pub open spec fn first_version_from(vs: Seq<VersionModel>, version: Seq<char>, i: int) -> Option<VersionModel>
    decreases vs.len() - i,
{
    if i < 0 || i >= vs.len() {
        None
    } else if vs[i].version == version {
        Some(vs[i])
    } else {
        first_version_from(vs, version, i + 1)
    }
}

/// The module that a lookup by exact, case-sensitive name finds.
pub open spec fn module_named(c: CatalogModel, name: Seq<char>) -> Option<ModuleModel> {
    first_named_from(c.modules, name, 0)
}

/// The newest version of the module named `name`.
pub open spec fn latest_of(c: CatalogModel, name: Seq<char>) -> Option<VersionModel> {
    match module_named(c, name) {
        Some(m) => newest(m),
        None => None,
    }
}

/// The version `version` of the module named `name`.
pub open spec fn version_of(c: CatalogModel, name: Seq<char>, version: Seq<char>) -> Option<VersionModel> {
    match module_named(c, name) {
        Some(m) => first_version_from(m.versions, version, 0),
        None => None,
    }
}

pub open spec fn module_ref_view(r: Option<&Module>) -> Option<ModuleModel> {
    match r {
        Some(m) => Some(m@),
        None => None,
    }
}

pub open spec fn version_ref_view(r: Option<&ModuleVersion>) -> Option<VersionModel> {
    match r {
        Some(v) => Some(v@),
        None => None,
    }
}

/// First module named exactly `name` (case-sensitive), in catalog order.
pub fn find_module<'a>(c: &'a Catalog, name: &str) -> (r: Option<&'a Module>)
    ensures
        module_ref_view(r) == module_named(c@, name@),
{
    let mut i: usize = 0;
    while i < c.modules.len()
        invariant
            i <= c.modules@.len(),
            c@.modules.len() == c.modules@.len(),
            first_named_from(c@.modules, name@, 0) == first_named_from(c@.modules, name@, i as int),
        decreases c.modules@.len() - i,
    {
        let m = &c.modules[i];
        assert(c@.modules[i as int] == m@);
        if same_text(m.name.as_str(), name) {
            return Some(m);
        }
        i = i + 1;
    }
    None
}

/// First version of `m` whose identifier is exactly `version`.
pub fn find_version_in<'a>(m: &'a Module, version: &str) -> (r: Option<&'a ModuleVersion>)
    ensures
        version_ref_view(r) == first_version_from(m@.versions, version@, 0),
{
    let mut i: usize = 0;
    while i < m.versions.len()
        invariant
            i <= m.versions@.len(),
            m@.versions.len() == m.versions@.len(),
            first_version_from(m@.versions, version@, 0) == first_version_from(m@.versions, version@, i as int),
        decreases m.versions@.len() - i,
    {
        let v = &m.versions[i];
        assert(m@.versions[i as int] == v@);
        if same_text(v.version.as_str(), version) {
            return Some(v);
        }
        i = i + 1;
    }
    None
}

/// The newest version (the first listed) of the module named `name`;
/// none where the module is absent or has no versions.
pub fn latest_version<'a>(c: &'a Catalog, name: &str) -> (r: Option<&'a ModuleVersion>)
    ensures
        version_ref_view(r) == latest_of(c@, name@),
{
    match find_module(c, name) {
        Some(m) => {
            if m.versions.len() > 0 {
                assert(m@.versions[0] == m.versions@[0]@);
                Some(&m.versions[0])
            } else {
                None
            }
        },
        None => None,
    }
}

/// Version `version` of the module named `name`, both matched exactly.
pub fn find_version<'a>(c: &'a Catalog, name: &str, version: &str) -> (r: Option<&'a ModuleVersion>)
    ensures
        version_ref_view(r) == version_of(c@, name@, version@),
{
    match find_module(c, name) {
        Some(m) => find_version_in(m, version),
        None => None,
    }
}

/// The lower-case form of a text, as the standard library folds case.
pub uninterp spec fn lower_of(s: Seq<char>) -> Seq<char>;

/// Relies on `str::to_lowercase`: the result depends on the characters
/// alone, and empty text stays empty.
#[verifier::external_body]
fn lowercase_chars(s: &str) -> (r: Vec<char>)
    ensures
        r@ == lower_of(s@),
        s@.len() == 0 ==> r@.len() == 0,
{
    s.to_lowercase().chars().collect()
}

/// Whether a folded query occurs in a folded name or folded description.
pub open spec fn folded_match(query: Seq<char>, name: Seq<char>, description: Seq<char>) -> bool {
    has_infix(name, query) || has_infix(description, query)
}

/// Whether module `m` answers search text `q`, ignoring case.
pub open spec fn module_matches(m: ModuleModel, q: Seq<char>) -> bool {
    folded_match(lower_of(q), lower_of(m.name), lower_of(description_of(m)))
}

/// Every module that answers `q`, in catalog order.
pub open spec fn matching(mods: Seq<ModuleModel>, q: Seq<char>) -> Seq<ModuleModel>
    decreases mods.len(),
{
    if mods.len() == 0 {
        Seq::empty()
    } else {
        let rest = matching(mods.drop_last(), q);
        if module_matches(mods.last(), q) {
            rest.push(mods.last())
        } else {
            rest
        }
    }
}

/// What a search for `q` returns: the first matches, up to the limit, as summaries.
pub open spec fn search_results(mods: Seq<ModuleModel>, q: Seq<char>) -> Seq<SummaryModel> {
    let found = matching(mods, q);
    let kept = if found.len() <= SEARCH_LIMIT { found } else { found.take(SEARCH_LIMIT as int) };
    kept.map_values(|m: ModuleModel| summary_of(m))
}

/// Whether a folded query occurs in a folded name or a folded description.
pub fn matches_folded(query: &Vec<char>, name: &Vec<char>, description: &Vec<char>) -> (r: bool)
    ensures
        r == folded_match(query@, name@, description@),
{
    contains_run(name, query) || contains_run(description, query)
}

/// Matches found among the first `i` modules are a prefix of all matches.
proof fn lemma_matching_prefix(mods: Seq<ModuleModel>, q: Seq<char>, i: int)
    requires
        0 <= i <= mods.len(),
    ensures
        matching(mods.take(i), q).len() <= matching(mods, q).len(),
        matching(mods, q).take(matching(mods.take(i), q).len() as int) == matching(mods.take(i), q),
    decreases mods.len(),
{
    if i == mods.len() {
        assert(mods.take(i) =~= mods);
        assert(matching(mods, q).take(matching(mods, q).len() as int) =~= matching(mods, q));
    } else {
        let d = mods.drop_last();
        assert(d.take(i) =~= mods.take(i));
        lemma_matching_prefix(d, q, i);
        let a = matching(mods.take(i), q);
        let b = matching(d, q);
        assert(matching(mods, q).take(a.len() as int) =~= b.take(a.len() as int));
    }
}

/// Case-insensitive search of names and descriptions: the first
/// `SEARCH_LIMIT` matches in catalog order, as summaries.
pub fn search(c: &Catalog, query: &str) -> (r: Vec<ModuleSummary>)
    ensures
        summaries_view(r@) == search_results(c@.modules, query@),
        query@.len() == 0 ==> summaries_view(r@) == first_summaries(c@.modules),
{
    let q = lowercase_chars(query);
    proof {
        if query@.len() == 0 {
            lemma_matching_all(c@.modules, query@);
        }
    }
    let ghost mods = c@.modules;
    let mut out: Vec<ModuleSummary> = Vec::new();
    let mut i: usize = 0;
    while i < c.modules.len() && out.len() < SEARCH_LIMIT
        invariant
            mods == c@.modules,
            q@ == lower_of(query@),
            i <= c.modules@.len(),
            mods.len() == c.modules@.len(),
            out@.len() <= SEARCH_LIMIT,
            out@.len() == matching(mods.take(i as int), query@).len(),
            forall|j: int| 0 <= j < out@.len() ==>
                #[trigger] out@[j]@ == summary_of(matching(mods.take(i as int), query@)[j]),
        decreases c.modules@.len() - i,
    {
        let m = &c.modules[i];
        assert(mods[i as int] == m@);
        let name = lowercase_chars(m.name.as_str());
        let description = m.description();
        let desc = lowercase_chars(description.as_str());
        let hit = matches_folded(&q, &name, &desc);
        assert(mods.take(i + 1).drop_last() =~= mods.take(i as int));
        assert(mods.take(i + 1).last() == mods[i as int]);
        if hit {
            out.push(m.summary());
        }
        i = i + 1;
    }
    proof {
        lemma_matching_prefix(mods, query@, i as int);
        let found = matching(mods, query@);
        let part = matching(mods.take(i as int), query@);
        if i == mods.len() {
            assert(mods.take(i as int) =~= mods);
        }
        if found.len() <= SEARCH_LIMIT {
            if i < mods.len() {
                assert(part.len() == SEARCH_LIMIT);
            }
            assert(found.take(part.len() as int) =~= found);
        }
        assert(summaries_view(out@) =~= search_results(mods, query@));
    }
    out
}

/// The first `SEARCH_LIMIT` modules in catalog order, as summaries.
pub open spec fn first_summaries(mods: Seq<ModuleModel>) -> Seq<SummaryModel> {
    let kept = if mods.len() <= SEARCH_LIMIT { mods } else { mods.take(SEARCH_LIMIT as int) };
    kept.map_values(|m: ModuleModel| summary_of(m))
}

/// A query that folds to empty text matches every module.
proof fn lemma_matching_all(mods: Seq<ModuleModel>, q: Seq<char>)
    requires
        lower_of(q).len() == 0,
    ensures
        matching(mods, q) == mods,
    decreases mods.len(),
{
    if mods.len() > 0 {
        lemma_matching_all(mods.drop_last(), q);
        let n = lower_of(mods.last().name);
        assert(n.subrange(0, 0 + lower_of(q).len() as int) =~= lower_of(q));
        assert(has_infix(n, lower_of(q)));
        assert(module_matches(mods.last(), q));
        assert(mods.drop_last().push(mods.last()) =~= mods);
    } else {
        assert(mods =~= Seq::empty());
    }
}

/// Lookup by name is exact and case-sensitive: what it finds carries the
/// very name asked for and no earlier module does, and it finds nothing
/// only where no module has that name.
pub proof fn lemma_lookup_is_exact(c: CatalogModel, name: Seq<char>)
    ensures
        match module_named(c, name) {
            Some(m) => exists|i: int|
                0 <= i < c.modules.len() && c.modules[i] == m && m.name == name
                    && forall|j: int| 0 <= j < i ==> (#[trigger] c.modules[j]).name != name,
            None => forall|i: int| 0 <= i < c.modules.len() ==> (#[trigger] c.modules[i]).name != name,
        },
{
    lemma_first_named_from(c.modules, name, 0);
}

proof fn lemma_first_named_from(mods: Seq<ModuleModel>, name: Seq<char>, k: int)
    requires
        0 <= k <= mods.len(),
    ensures
        match first_named_from(mods, name, k) {
            Some(m) => exists|i: int|
                k <= i < mods.len() && mods[i] == m && m.name == name
                    && forall|j: int| k <= j < i ==> (#[trigger] mods[j]).name != name,
            None => forall|i: int| k <= i < mods.len() ==> (#[trigger] mods[i]).name != name,
        },
    decreases mods.len() - k,
{
    if k < mods.len() {
        lemma_first_named_from(mods, name, k + 1);
        if mods[k].name != name {
            match first_named_from(mods, name, k + 1) {
                Some(m) => {
                    let i = choose|i: int|
                        k + 1 <= i < mods.len() && mods[i] == m && m.name == name
                            && forall|j: int| k + 1 <= j < i ==> (#[trigger] mods[j]).name != name;
                    assert(forall|j: int| k <= j < i ==> (#[trigger] mods[j]).name != name);
                },
                None => {},
            }
        } else {
            assert(forall|j: int| k <= j < k ==> (#[trigger] mods[j]).name != name);
        }
    }
}

/// The latest version is the first listed version of the module found by
/// name, whatever the version texts say; none where there is no such
/// module or it lists no versions.
pub proof fn lemma_latest_is_first_listed(c: CatalogModel, name: Seq<char>)
    ensures
        latest_of(c, name) == match module_named(c, name) {
            Some(m) => if m.versions.len() > 0 { Some(m.versions[0]) } else { None },
            None => None,
        },
{
}

/// Summary of every module, in catalog order.
pub fn list_summaries(c: &Catalog) -> (r: Vec<ModuleSummary>)
    ensures
        summaries_view(r@) == c@.modules.map_values(|m: ModuleModel| summary_of(m)),
{
    let mut out: Vec<ModuleSummary> = Vec::new();
    let mut i: usize = 0;
    while i < c.modules.len()
        invariant
            i <= c.modules@.len(),
            c@.modules.len() == c.modules@.len(),
            out@.len() == i,
            forall|j: int| 0 <= j < i ==> #[trigger] out@[j]@ == summary_of(c@.modules[j]),
        decreases c.modules@.len() - i,
    {
        assert(c@.modules[i as int] == c.modules@[i as int]@);
        out.push(c.modules[i].summary());
        i = i + 1;
    }
    assert(summaries_view(out@) =~= c@.modules.map_values(|m: ModuleModel| summary_of(m)));
    out
}

} // verus!
