//! The resolver: decides, for one dependency, whether an upgrade exists and
//! which version is the latest usable one under the pre-release policy.
//!
//! Per dependency it considers only registry-sourced requirements, drops
//! yanked and unparseable records, and aims at the greatest stable version
//! unless pre-releases are admitted by the policy flag or the requirement
//! already matches one; where no stable version exists at all the greatest
//! version overall is the fallback. A suggestion is produced exactly where
//! the requirement does not satisfy that target.

use crate::registry::{record_views, RegistryCrateView, RegistrySnapshot, VersionRecordView};
use crate::version::{
    lemma_version_lt_irrefl, lemma_version_lt_trans, parsed_version_of, spec_version_matches,
    version_lt, Version, VersionView,
};
use crate::workspace::{
    dep_views, spec_lookup_package, Dependency, DependencyView, Package, PackageView, Workspace,
    WorkspaceView,
};
use vstd::prelude::*;

verus! {

/// The canonical source identifier of the target registry; only
/// dependencies recorded with exactly this source are resolved.
pub open spec fn crates_io_source_spec() -> Seq<char> {
    "registry+https://github.com/rust-lang/crates.io-index"@
}

pub fn crates_io_source() -> (r: &'static str)
    ensures
        r@ == crates_io_source_spec(),
{
    "registry+https://github.com/rust-lang/crates.io-index"
}

fn is_crates_io(s: &String) -> (r: bool)
    ensures
        r == (s@ == crates_io_source_spec()),
{
    let t: String = crates_io_source().to_owned();
    *s == t
}

/// One usable published version together with whether the dependency's
/// requirement matches it.
pub struct Candidate {
    pub version: Version,
    pub matches_req: bool,
}

pub struct CandidateView {
    pub version: VersionView,
    pub matches_req: bool,
}

impl View for Candidate {
    type V = CandidateView;

    open spec fn view(&self) -> CandidateView {
        CandidateView { version: self.version@, matches_req: self.matches_req }
    }
}

pub open spec fn candidate_views(s: Seq<Candidate>) -> Seq<CandidateView> {
    s.map_values(|c: Candidate| c@)
}

/// Keep the strictly greater of the two; on a tie the earlier one wins.
pub open spec fn better_candidate(
    acc: Option<CandidateView>,
    c: CandidateView,
) -> Option<CandidateView> {
    match acc {
        Option::None => Option::Some(c),
        Option::Some(a) => if version_lt(a.version, c.version) {
            Option::Some(c)
        } else {
            Option::Some(a)
        },
    }
}

/// The greatest candidate overall.
pub open spec fn spec_latest_any(s: Seq<CandidateView>) -> Option<CandidateView>
    decreases s.len(),
{
    if s.len() == 0 {
        Option::None
    } else {
        better_candidate(spec_latest_any(s.drop_last()), s.last())
    }
}

/// The greatest candidate without pre-release identifiers.
pub open spec fn spec_latest_stable(s: Seq<CandidateView>) -> Option<CandidateView>
    decreases s.len(),
{
    if s.len() == 0 {
        Option::None
    } else {
        let front = spec_latest_stable(s.drop_last());
        if s.last().version.pre.len() == 0 {
            better_candidate(front, s.last())
        } else {
            front
        }
    }
}

/// The greatest candidate the requirement matches.
pub open spec fn spec_best_match(s: Seq<CandidateView>) -> Option<CandidateView>
    decreases s.len(),
{
    if s.len() == 0 {
        Option::None
    } else {
        let front = spec_best_match(s.drop_last());
        if s.last().matches_req {
            better_candidate(front, s.last())
        } else {
            front
        }
    }
}

/// Whether the requirement matches some pre-release candidate: such a
/// requirement has opted into pre-releases on its own.
pub open spec fn spec_has_pre_match(s: Seq<CandidateView>) -> bool
    decreases s.len(),
{
    if s.len() == 0 {
        false
    } else {
        spec_has_pre_match(s.drop_last()) || (s.last().matches_req && s.last().version.pre.len()
            > 0)
    }
}

/// The version the policy takes as "latest": the greatest overall when
/// pre-releases are included or the requirement already matches one, else
/// the greatest stable one, falling back to the greatest overall when no
/// stable version exists; `None` only without candidates.
pub open spec fn spec_chosen_target(
    s: Seq<CandidateView>,
    include_prerelease: bool,
) -> Option<CandidateView> {
    match spec_latest_any(s) {
        Option::None => Option::None,
        Option::Some(any) => Option::Some(
            if include_prerelease || spec_has_pre_match(s) {
                any
            } else {
                match spec_latest_stable(s) {
                    Option::Some(st) => st,
                    Option::None => any,
                }
            },
        ),
    }
}

/// The outcome for one dependency: `None` where it is up to date or nothing
/// is usable; otherwise the greatest matching version, if any, and the
/// chosen target.
pub open spec fn spec_suggestion(s: Seq<CandidateView>, include_prerelease: bool) -> Option<
    (Option<VersionView>, VersionView),
> {
    match spec_chosen_target(s, include_prerelease) {
        Option::None => Option::None,
        Option::Some(t) => if t.matches_req {
            Option::None
        } else {
            Option::Some(
                (
                    match spec_best_match(s) {
                        Option::None => Option::None,
                        Option::Some(m) => Option::Some(m.version),
                    },
                    t.version,
                ),
            )
        },
    }
}

spec fn tracks_best(
    acc: Option<CandidateView>,
    idx: Option<usize>,
    cv: Seq<CandidateView>,
    i: int,
) -> bool {
    match (acc, idx) {
        (Option::None, Option::None) => true,
        (Option::Some(c), Option::Some(j)) => j < i && cv[j as int] == c,
        _ => false,
    }
}

/// Decide the outcome for one dependency from its usable candidates.
pub fn evaluate_candidates(cands: &Vec<Candidate>, include_prerelease: bool) -> (r: Option<
    (Option<Version>, Version),
>)
    ensures
        match r {
            Option::None => spec_suggestion(candidate_views(cands@), include_prerelease) is None,
            Option::Some(t) => spec_suggestion(candidate_views(cands@), include_prerelease)
                == Option::Some(
                (
                    match t.0 {
                        Option::None => Option::None,
                        Option::Some(v) => Option::Some(v@),
                    },
                    t.1@,
                ),
            ),
        },
{
    let ghost cv = candidate_views(cands@);
    let mut best_any: Option<usize> = Option::None;
    let mut best_stable: Option<usize> = Option::None;
    let mut best_match: Option<usize> = Option::None;
    let mut has_pre_match = false;
    let mut i: usize = 0;
    proof {
        assert(cv.take(0) =~= Seq::<CandidateView>::empty());
    }
    while i < cands.len()
        invariant
            0 <= i <= cands@.len(),
            cv == candidate_views(cands@),
            cv.len() == cands@.len(),
            tracks_best(spec_latest_any(cv.take(i as int)), best_any, cv, i as int),
            tracks_best(spec_latest_stable(cv.take(i as int)), best_stable, cv, i as int),
            tracks_best(spec_best_match(cv.take(i as int)), best_match, cv, i as int),
            has_pre_match == spec_has_pre_match(cv.take(i as int)),
        decreases cands@.len() - i,
    {
        proof {
            assert(cv.take(i as int + 1).drop_last() =~= cv.take(i as int));
            assert(cv.take(i as int + 1).last() == cv[i as int]);
        }
        let c = &cands[i];
        match best_any {
            Option::None => {
                best_any = Option::Some(i);
            },
            Option::Some(j) => {
                if crate::version::precedes(&cands[j].version, &c.version) {
                    best_any = Option::Some(i);
                }
            },
        }
        if !c.version.is_prerelease() {
            match best_stable {
                Option::None => {
                    best_stable = Option::Some(i);
                },
                Option::Some(j) => {
                    if crate::version::precedes(&cands[j].version, &c.version) {
                        best_stable = Option::Some(i);
                    }
                },
            }
        }
        if c.matches_req {
            match best_match {
                Option::None => {
                    best_match = Option::Some(i);
                },
                Option::Some(j) => {
                    if crate::version::precedes(&cands[j].version, &c.version) {
                        best_match = Option::Some(i);
                    }
                },
            }
            if c.version.is_prerelease() {
                has_pre_match = true;
            }
        }
        i = i + 1;
    }
    proof {
        assert(cv.take(cands@.len() as int) =~= cv);
    }
    match best_any {
        Option::None => Option::None,
        Option::Some(ja) => {
            let target_idx = if include_prerelease || has_pre_match {
                ja
            } else {
                match best_stable {
                    Option::Some(js) => js,
                    Option::None => ja,
                }
            };
            let t = &cands[target_idx];
            if t.matches_req {
                Option::None
            } else {
                let found = match best_match {
                    Option::None => Option::None,
                    Option::Some(jm) => Option::Some(cands[jm].version.duplicate()),
                };
                Option::Some((found, t.version.duplicate()))
            }
        },
    }
}

/// The usable candidates among a package's records: not yanked and
/// parseable, each with its match flag, in record order.
pub open spec fn spec_candidates(recs: Seq<VersionRecordView>, req: Seq<char>) -> Seq<
    CandidateView,
>
    decreases recs.len(),
{
    if recs.len() == 0 {
        Seq::empty()
    } else {
        let front = spec_candidates(recs.drop_last(), req);
        let rec = recs.last();
        if rec.yanked {
            front
        } else {
            match parsed_version_of(rec.version) {
                Option::None => front,
                Option::Some(vv) => front.push(
                    CandidateView {
                        version: vv,
                        matches_req: spec_version_matches(rec.version, req),
                    },
                ),
            }
        }
    }
}

/// The outcome for one dependency against the registry snapshot: `None`
/// for a dependency from another source, an unknown package, or one that
/// is already up to date.
pub open spec fn spec_check_dep(
    dep: DependencyView,
    reg: Seq<RegistryCrateView>,
    include_prerelease: bool,
) -> Option<(Option<VersionView>, VersionView)> {
    if dep.source != Option::Some(crates_io_source_spec()) {
        Option::None
    } else {
        match crate::registry::spec_registry_lookup(reg, dep.name) {
            Option::None => Option::None,
            Option::Some(recs) => spec_suggestion(
                spec_candidates(recs, dep.req),
                include_prerelease,
            ),
        }
    }
}

/// An upgrade suggestion: the dependency it is about, the greatest version
/// its requirement currently matches (`None` where nothing matches), and
/// the latest usable version under the policy.
pub struct Match {
    pub dependency: Dependency,
    pub matches: Option<Version>,
    pub latest: Version,
}

pub struct MatchView {
    pub dependency: DependencyView,
    pub matches: Option<VersionView>,
    pub latest: VersionView,
}

impl View for Match {
    type V = MatchView;

    open spec fn view(&self) -> MatchView {
        MatchView {
            dependency: self.dependency@,
            matches: match self.matches {
                Option::None => Option::None,
                Option::Some(v) => Option::Some(v@),
            },
            latest: self.latest@,
        }
    }
}

pub open spec fn match_views(s: Seq<Match>) -> Seq<MatchView> {
    s.map_values(|m: Match| m@)
}

/// Resolve one dependency against the registry snapshot.
pub fn check_dep(dep: &Dependency, registry: &RegistrySnapshot, include_prerelease: bool) -> (r:
    Option<Match>)
    ensures
        match r {
            Option::None => spec_check_dep(dep@, registry@, include_prerelease) is None,
            Option::Some(m) => m@.dependency == dep@ && spec_check_dep(
                dep@,
                registry@,
                include_prerelease,
            ) == Option::Some((m@.matches, m@.latest)),
        },
{
    let from_registry = match &dep.source {
        Option::Some(s) => is_crates_io(s),
        Option::None => false,
    };
    if !from_registry {
        return Option::None;
    }
    let recs = match registry.lookup(&dep.name) {
        Option::None => {
            return Option::None;
        },
        Option::Some(recs) => recs,
    };
    let ghost rv = record_views(recs@);
    let mut cands: Vec<Candidate> = Vec::new();
    let mut i: usize = 0;
    proof {
        assert(candidate_views(cands@) =~= spec_candidates(rv.take(0), dep@.req));
    }
    while i < recs.len()
        invariant
            0 <= i <= recs@.len(),
            rv == record_views(recs@),
            rv.len() == recs@.len(),
            candidate_views(cands@) == spec_candidates(rv.take(i as int), dep@.req),
        decreases recs@.len() - i,
    {
        proof {
            assert(rv.take(i as int + 1).drop_last() =~= rv.take(i as int));
            assert(rv.take(i as int + 1).last() == rv[i as int]);
        }
        let rec = &recs[i];
        if !rec.yanked {
            let ghost prior = cands@;
            match Version::parse_and_match(rec.version.as_str(), dep.req.as_str()) {
                Option::None => {},
                Option::Some((version, matches_req)) => {
                    cands.push(Candidate { version, matches_req });
                    proof {
                        assert(candidate_views(cands@) =~= candidate_views(prior).push(
                            CandidateView {
                                version: parsed_version_of(rv[i as int].version)->Some_0,
                                matches_req: spec_version_matches(rv[i as int].version, dep@.req),
                            },
                        ));
                    }
                },
            }
        }
        i = i + 1;
    }
    proof {
        assert(rv.take(rv.len() as int) =~= rv);
    }
    match evaluate_candidates(&cands, include_prerelease) {
        Option::None => Option::None,
        Option::Some((found, latest)) => Option::Some(
            Match { dependency: dep.duplicate(), matches: found, latest },
        ),
    }
}

/// What the policy calls "latest" is a maximum: it is one of the
/// candidates and no candidate exceeds it; it is absent only without
/// candidates.
pub proof fn lemma_latest_any_is_max(s: Seq<CandidateView>)
    ensures
        match spec_latest_any(s) {
            Option::None => s.len() == 0,
            Option::Some(c) => (exists|i: int| 0 <= i < s.len() && s[i] == c) && (forall|j: int|
                0 <= j < s.len() ==> !version_lt(c.version, #[trigger] s[j].version)),
        },
    decreases s.len(),
{
    if s.len() > 0 {
        lemma_latest_any_is_max(s.drop_last());
        let last = s.last();
        match spec_latest_any(s.drop_last()) {
            Option::None => {
                lemma_version_lt_irrefl(last.version);
                assert(s[s.len() - 1] == last);
            },
            Option::Some(acc) => {
                let i0 = choose|i: int|
                    0 <= i < s.drop_last().len() && s.drop_last()[i] == acc;
                if version_lt(acc.version, last.version) {
                    lemma_version_lt_irrefl(last.version);
                    assert forall|j: int| 0 <= j < s.len() implies !version_lt(
                        last.version,
                        #[trigger] s[j].version,
                    ) by {
                        if j < s.len() - 1 {
                            assert(s.drop_last()[j] == s[j]);
                            if version_lt(last.version, s[j].version) {
                                lemma_version_lt_trans(acc.version, last.version, s[j].version);
                            }
                        }
                    }
                    assert(s[s.len() - 1] == last);
                } else {
                    assert(s[i0] == acc);
                    assert forall|j: int| 0 <= j < s.len() implies !version_lt(
                        acc.version,
                        #[trigger] s[j].version,
                    ) by {
                        if j < s.len() - 1 {
                            assert(s.drop_last()[j] == s[j]);
                        }
                    }
                }
            },
        }
    }
}

/// The stable fallback target is a maximum among the stable candidates:
/// it is a stable candidate and no stable candidate exceeds it; it is
/// absent exactly where no candidate is stable.
pub proof fn lemma_latest_stable_is_max(s: Seq<CandidateView>)
    ensures
        match spec_latest_stable(s) {
            Option::None => forall|j: int| 0 <= j < s.len() ==> (#[trigger] s[j].version).pre.len()
                > 0,
            Option::Some(c) => c.version.pre.len() == 0 && (exists|i: int|
                0 <= i < s.len() && s[i] == c) && (forall|j: int|
                0 <= j < s.len() && (#[trigger] s[j].version).pre.len() == 0 ==> !version_lt(
                    c.version,
                    s[j].version,
                )),
        },
    decreases s.len(),
{
    if s.len() > 0 {
        lemma_latest_stable_is_max(s.drop_last());
        let last = s.last();
        assert(s[s.len() - 1] == last);
        assert(forall|j: int| 0 <= j < s.len() - 1 ==> s.drop_last()[j] == #[trigger] s[j]);
        match spec_latest_stable(s.drop_last()) {
            Option::None => {
                if last.version.pre.len() == 0 {
                    lemma_version_lt_irrefl(last.version);
                }
            },
            Option::Some(acc) => {
                let i0 = choose|i: int|
                    0 <= i < s.drop_last().len() && s.drop_last()[i] == acc;
                assert(s[i0] == acc);
                if last.version.pre.len() == 0 && version_lt(acc.version, last.version) {
                    lemma_version_lt_irrefl(last.version);
                    assert forall|j: int|
                        0 <= j < s.len() && (#[trigger] s[j].version).pre.len()
                            == 0 implies !version_lt(last.version, s[j].version) by {
                        if j < s.len() - 1 && version_lt(last.version, s[j].version) {
                            lemma_version_lt_trans(acc.version, last.version, s[j].version);
                        }
                    }
                }
            },
        }
    }
}

/// The best currently-matching version is a maximum among the matching
/// candidates; it is absent exactly where the requirement matches nothing.
pub proof fn lemma_best_match_is_max(s: Seq<CandidateView>)
    ensures
        match spec_best_match(s) {
            Option::None => forall|j: int| 0 <= j < s.len() ==> !(#[trigger] s[j]).matches_req,
            Option::Some(c) => c.matches_req && (exists|i: int| 0 <= i < s.len() && s[i] == c) && (
            forall|j: int|
                0 <= j < s.len() && (#[trigger] s[j]).matches_req ==> !version_lt(
                    c.version,
                    s[j].version,
                )),
        },
    decreases s.len(),
{
    if s.len() > 0 {
        lemma_best_match_is_max(s.drop_last());
        let last = s.last();
        assert(s[s.len() - 1] == last);
        assert(forall|j: int| 0 <= j < s.len() - 1 ==> s.drop_last()[j] == #[trigger] s[j]);
        match spec_best_match(s.drop_last()) {
            Option::None => {
                if last.matches_req {
                    lemma_version_lt_irrefl(last.version);
                }
            },
            Option::Some(acc) => {
                let i0 = choose|i: int|
                    0 <= i < s.drop_last().len() && s.drop_last()[i] == acc;
                assert(s[i0] == acc);
                if last.matches_req && version_lt(acc.version, last.version) {
                    lemma_version_lt_irrefl(last.version);
                    assert forall|j: int|
                        0 <= j < s.len() && (#[trigger] s[j]).matches_req implies !version_lt(
                        last.version,
                        s[j].version,
                    ) by {
                        if j < s.len() - 1 && version_lt(last.version, s[j].version) {
                            lemma_version_lt_trans(acc.version, last.version, s[j].version);
                        }
                    }
                }
            },
        }
    }
}

/// The suggestions for a package's dependencies, in dependency order;
/// dependencies without one contribute nothing.
pub open spec fn spec_matches_for(
    deps: Seq<DependencyView>,
    reg: Seq<RegistryCrateView>,
    include_prerelease: bool,
) -> Seq<MatchView>
    decreases deps.len(),
{
    if deps.len() == 0 {
        Seq::empty()
    } else {
        let front = spec_matches_for(deps.drop_last(), reg, include_prerelease);
        match spec_check_dep(deps.last(), reg, include_prerelease) {
            Option::None => front,
            Option::Some(t) => front.push(
                MatchView { dependency: deps.last(), matches: t.0, latest: t.1 },
            ),
        }
    }
}

/// The outcome for one workspace package: `None` only where the identifier
/// is unknown, otherwise the package with its (possibly empty) suggestion
/// list.
pub open spec fn spec_check_package(
    ws: WorkspaceView,
    id: Seq<char>,
    reg: Seq<RegistryCrateView>,
    include_prerelease: bool,
) -> Option<(PackageView, Seq<MatchView>)> {
    match spec_lookup_package(ws.packages, id) {
        Option::None => Option::None,
        Option::Some(p) => Option::Some(
            (p, spec_matches_for(p.dependencies, reg, include_prerelease)),
        ),
    }
}

impl Workspace {
    /// Resolve every dependency of the package with `id`; `None` only where
    /// the identifier is unknown to the graph.
    pub fn check_package(
        &self,
        id: &String,
        registry: &RegistrySnapshot,
        include_prerelease: bool,
    ) -> (r: Option<(Package, Vec<Match>)>)
        ensures
            match r {
                Option::None => spec_check_package(self@, id@, registry@, include_prerelease)
                    is None,
                Option::Some(t) => spec_check_package(self@, id@, registry@, include_prerelease)
                    == Option::Some((t.0@, match_views(t.1@))),
            },
    {
        let package = match self.lookup_package(id) {
            Option::None => {
                return Option::None;
            },
            Option::Some(p) => p.duplicate(),
        };
        let ghost dv = dep_views(package.dependencies@);
        let mut suggestions: Vec<Match> = Vec::new();
        let mut i: usize = 0;
        proof {
            assert(match_views(suggestions@) =~= spec_matches_for(
                dv.take(0),
                registry@,
                include_prerelease,
            ));
        }
        while i < package.dependencies.len()
            invariant
                0 <= i <= package.dependencies@.len(),
                dv == dep_views(package.dependencies@),
                dv.len() == package.dependencies@.len(),
                match_views(suggestions@) == spec_matches_for(
                    dv.take(i as int),
                    registry@,
                    include_prerelease,
                ),
            decreases package.dependencies@.len() - i,
        {
            proof {
                assert(dv.take(i as int + 1).drop_last() =~= dv.take(i as int));
                assert(dv.take(i as int + 1).last() == dv[i as int]);
            }
            let ghost prior = suggestions@;
            match check_dep(&package.dependencies[i], registry, include_prerelease) {
                Option::None => {},
                Option::Some(m) => {
                    suggestions.push(m);
                    proof {
                        assert(match_views(suggestions@) =~= match_views(prior).push(
                            suggestions@.last()@,
                        ));
                    }
                },
            }
            i = i + 1;
        }
        proof {
            assert(dv.take(package.dependencies@.len() as int) =~= dv);
        }
        Option::Some((package, suggestions))
    }
}

/// A dependency whose requirement satisfies the policy-chosen target gets
/// no suggestion.
pub proof fn lemma_current_dependency_not_suggested(s: Seq<CandidateView>, include_prerelease: bool)
    requires
        spec_chosen_target(s, include_prerelease) is Some,
        spec_chosen_target(s, include_prerelease)->Some_0.matches_req,
    ensures
        spec_suggestion(s, include_prerelease) is None,
{
}

/// Where every record of a package is yanked there are no candidates, and
/// no suggestion, as if the package were absent.
pub proof fn lemma_yanked_only_no_suggestion(
    recs: Seq<VersionRecordView>,
    req: Seq<char>,
    include_prerelease: bool,
)
    requires
        forall|k: int| 0 <= k < recs.len() ==> recs[k].yanked,
    ensures
        spec_candidates(recs, req) == Seq::<CandidateView>::empty(),
        spec_suggestion(spec_candidates(recs, req), include_prerelease) is None,
    decreases recs.len(),
{
    if recs.len() == 0 {
        assert(spec_candidates(recs, req) =~= Seq::<CandidateView>::empty());
    } else {
        lemma_yanked_only_no_suggestion(recs.drop_last(), req, include_prerelease);
        assert(recs.last().yanked);
    }
}

/// A dependency sourced other than from the target registry never yields a
/// suggestion, whatever the registry holds.
pub proof fn lemma_foreign_source_no_suggestion(
    dep: DependencyView,
    reg: Seq<RegistryCrateView>,
    include_prerelease: bool,
)
    requires
        dep.source != Option::Some(crates_io_source_spec()),
    ensures
        spec_check_dep(dep, reg, include_prerelease) is None,
{
}

/// A package absent from the registry snapshot yields no suggestion and no
/// error.
pub proof fn lemma_unknown_package_no_suggestion(
    dep: DependencyView,
    reg: Seq<RegistryCrateView>,
    include_prerelease: bool,
)
    requires
        crate::registry::spec_registry_lookup(reg, dep.name) is None,
    ensures
        spec_check_dep(dep, reg, include_prerelease) is None,
{
}

} // verus!
