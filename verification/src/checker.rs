//! Combining the two start-up outcomes into a usable checker, the feature
//! fallback plan for workspace metadata, and the walk over all workspace
//! members.

use crate::registry::RegistrySnapshot;
use crate::resolver::{match_views, spec_check_package, Match, MatchView};
use crate::workspace::{Package, PackageView, Workspace};
use vstd::prelude::*;

verus! {

/// Why a check could not start: the registry snapshot could not be
/// acquired, or the workspace graph could not be built. Each carries a
/// short description.
#[derive(Debug)]
pub enum Error {
    Index(String),
    Metadata(String),
}

impl Error {
    /// The carried description.
    pub fn message(&self) -> (r: &str)
        ensures
            r@ == match self {
                Error::Index(m) => m@,
                Error::Metadata(m) => m@,
            },
    {
        match self {
            Error::Index(m) => m.as_str(),
            Error::Metadata(m) => m.as_str(),
        }
    }
}

/// One feature-selection mode for building the workspace graph.
#[derive(Clone, Copy, PartialEq, Eq, Structural, Debug)]
pub enum FeatureRequest {
    AllFeatures,
    ReducedFeatures,
    NoDefaultFeatures,
}

/// The fallback plan for workspace metadata resolution: the full optional
/// feature set first, then an explicit empty selection, then no default
/// features. Attempts are made in this order until one succeeds.
pub fn feature_requests() -> (r: Vec<FeatureRequest>)
    ensures
        r@ == seq![
            FeatureRequest::AllFeatures,
            FeatureRequest::ReducedFeatures,
            FeatureRequest::NoDefaultFeatures,
        ],
{
    let mut v: Vec<FeatureRequest> = Vec::new();
    v.push(FeatureRequest::AllFeatures);
    v.push(FeatureRequest::ReducedFeatures);
    v.push(FeatureRequest::NoDefaultFeatures);
    proof {
        assert(v@ =~= seq![
            FeatureRequest::AllFeatures,
            FeatureRequest::ReducedFeatures,
            FeatureRequest::NoDefaultFeatures,
        ]);
    }
    v
}

/// The outcome of a fallback sequence: the first success, else the first
/// and most informative failure.
pub open spec fn spec_first_outcome<T>(s: Seq<Result<T, String>>) -> Result<T, String>
    decreases s.len(),
{
    if s.len() <= 1 {
        s[0]
    } else if s[0] is Ok {
        s[0]
    } else {
        let rest = spec_first_outcome(s.skip(1));
        if rest is Ok {
            rest
        } else {
            s[0]
        }
    }
}

proof fn lemma_first_outcome_ok<T>(s: Seq<Result<T, String>>, j: int)
    requires
        0 <= j < s.len(),
        s[j] is Ok,
        forall|k: int| 0 <= k < j ==> !(s[k] is Ok),
    ensures
        spec_first_outcome(s) == s[j],
    decreases j,
{
    if j == 0 {
    } else {
        assert(s.len() > 1);
        let rest = s.skip(1);
        assert(rest[j - 1] == s[j]);
        assert forall|k: int| 0 <= k < j - 1 implies !(rest[k] is Ok) by {
            assert(rest[k] == s[k + 1]);
        }
        lemma_first_outcome_ok(rest, j - 1);
    }
}

proof fn lemma_first_outcome_err<T>(s: Seq<Result<T, String>>)
    requires
        s.len() > 0,
        forall|k: int| 0 <= k < s.len() ==> !(s[k] is Ok),
    ensures
        spec_first_outcome(s) == s[0],
    decreases s.len(),
{
    if s.len() > 1 {
        let rest = s.skip(1);
        assert forall|k: int| 0 <= k < rest.len() implies !(rest[k] is Ok) by {
            assert(rest[k] == s[k + 1]);
        }
        lemma_first_outcome_err(rest);
    }
}

/// Fold the attempts of the feature fallback sequence into one outcome:
/// the first success, else the first attempt's error.
pub fn metadata_outcome<T>(attempts: Vec<Result<T, String>>) -> (r: Result<T, String>)
    requires
        attempts@.len() > 0,
    ensures
        r == spec_first_outcome(attempts@),
{
    let mut attempts = attempts;
    let n = attempts.len();
    let mut i: usize = 0;
    let mut idx: usize = 0;
    let mut have_ok = false;
    while i < n
        invariant
            0 <= i <= n,
            n == attempts@.len(),
            have_ok ==> idx < i && attempts@[idx as int] is Ok && forall|k: int|
                0 <= k < idx ==> !(attempts@[k] is Ok),
            !have_ok ==> idx == 0 && forall|k: int| 0 <= k < i ==> !(attempts@[k] is Ok),
        decreases n - i,
    {
        if !have_ok && attempts[i].is_ok() {
            idx = i;
            have_ok = true;
        }
        i = i + 1;
    }
    proof {
        if have_ok {
            lemma_first_outcome_ok(attempts@, idx as int);
        } else {
            lemma_first_outcome_err(attempts@);
        }
    }
    attempts.remove(idx)
}

/// A checker over an immutable workspace graph and registry snapshot.
#[derive(Debug)]
pub struct UpgradesChecker {
    pub workspace: Workspace,
    pub registry: RegistrySnapshot,
}

impl UpgradesChecker {
    /// Combine the outcomes of the two independent start-up tasks. Both
    /// must have finished; where both failed, the workspace error takes
    /// precedence.
    pub fn new(workspace: Result<Workspace, String>, registry: Result<RegistrySnapshot, String>)
        -> (r: Result<UpgradesChecker, Error>)
        ensures
            match (workspace, registry) {
                (Result::Err(w), _) => r == Result::<UpgradesChecker, Error>::Err(
                    Error::Metadata(w),
                ),
                (Result::Ok(_), Result::Err(e)) => r == Result::<UpgradesChecker, Error>::Err(
                    Error::Index(e),
                ),
                (Result::Ok(w), Result::Ok(g)) => r == Result::<UpgradesChecker, Error>::Ok(
                    UpgradesChecker { workspace: w, registry: g },
                ),
            },
    {
        match workspace {
            Result::Err(w) => Result::Err(Error::Metadata(w)),
            Result::Ok(ws) => match registry {
                Result::Err(e) => Result::Err(Error::Index(e)),
                Result::Ok(reg) => Result::Ok(UpgradesChecker { workspace: ws, registry: reg }),
            },
        }
    }
}

pub open spec fn outdated_views(s: Seq<(Package, Vec<Match>)>) -> Seq<(PackageView, Seq<MatchView>)> {
    s.map_values(|t: (Package, Vec<Match>)| (t.0@, match_views(t.1@)))
}

/// The members with at least one suggestion, in member order, each with
/// its nonempty suggestion list.
pub open spec fn spec_outdated_members(
    ws: crate::workspace::WorkspaceView,
    reg: Seq<crate::registry::RegistryCrateView>,
    include_prerelease: bool,
    members: Seq<Seq<char>>,
) -> Seq<(PackageView, Seq<MatchView>)>
    decreases members.len(),
{
    if members.len() == 0 {
        Seq::empty()
    } else {
        let front = spec_outdated_members(ws, reg, include_prerelease, members.drop_last());
        match spec_check_package(ws, members.last(), reg, include_prerelease) {
            Option::None => front,
            Option::Some(t) => if t.1.len() > 0 {
                front.push(t)
            } else {
                front
            },
        }
    }
}

/// Every entry the walk yields carries at least one suggestion.
pub proof fn lemma_outdated_members_nonempty(
    ws: crate::workspace::WorkspaceView,
    reg: Seq<crate::registry::RegistryCrateView>,
    include_prerelease: bool,
    members: Seq<Seq<char>>,
)
    ensures
        forall|k: int|
            0 <= k < spec_outdated_members(ws, reg, include_prerelease, members).len()
                ==> (#[trigger] spec_outdated_members(ws, reg, include_prerelease, members)[k]).1.len()
                > 0,
    decreases members.len(),
{
    if members.len() > 0 {
        lemma_outdated_members_nonempty(ws, reg, include_prerelease, members.drop_last());
        let front = spec_outdated_members(ws, reg, include_prerelease, members.drop_last());
        let s = spec_outdated_members(ws, reg, include_prerelease, members);
        match spec_check_package(ws, members.last(), reg, include_prerelease) {
            Option::None => {
                assert(s == front);
            },
            Option::Some(t) => {
                if t.1.len() > 0 {
                    assert(s == front.push(t));
                    assert forall|k: int| 0 <= k < s.len() implies (#[trigger] s[k]).1.len()
                        > 0 by {
                        if k < front.len() {
                            assert(s[k] == front[k]);
                        } else {
                            assert(s[k] == t);
                        }
                    }
                } else {
                    assert(s == front);
                }
            },
        }
    }
}

impl UpgradesChecker {
    /// Walk the workspace members in recorded order and keep those with at
    /// least one upgrade suggestion.
    pub fn outdated_dependencies(&self, include_prerelease: bool) -> (r: Vec<
        (Package, Vec<Match>),
    >)
        ensures
            outdated_views(r@) == spec_outdated_members(
                self.workspace@,
                self.registry@,
                include_prerelease,
                self.workspace@.members,
            ),
    {
        let ghost mv = self.workspace@.members;
        let mut out: Vec<(Package, Vec<Match>)> = Vec::new();
        let mut i: usize = 0;
        proof {
            assert(outdated_views(out@) =~= spec_outdated_members(
                self.workspace@,
                self.registry@,
                include_prerelease,
                mv.take(0),
            ));
        }
        while i < self.workspace.members.len()
            invariant
                0 <= i <= self.workspace.members@.len(),
                mv == self.workspace@.members,
                mv.len() == self.workspace.members@.len(),
                outdated_views(out@) == spec_outdated_members(
                    self.workspace@,
                    self.registry@,
                    include_prerelease,
                    mv.take(i as int),
                ),
            decreases self.workspace.members@.len() - i,
        {
            proof {
                assert(mv.take(i as int + 1).drop_last() =~= mv.take(i as int));
                assert(mv.take(i as int + 1).last() == mv[i as int]);
                assert(mv[i as int] == self.workspace.members@[i as int]@);
            }
            let ghost prior = out@;
            match self.workspace.check_package(
                &self.workspace.members[i],
                &self.registry,
                include_prerelease,
            ) {
                Option::None => {},
                Option::Some((package, suggestions)) => {
                    if suggestions.len() > 0 {
                        let ghost entry = (package@, match_views(suggestions@));
                        out.push((package, suggestions));
                        proof {
                            assert(outdated_views(out@) =~= outdated_views(prior).push(entry));
                        }
                    }
                },
            }
            i = i + 1;
        }
        proof {
            assert(mv.take(self.workspace.members@.len() as int) =~= mv);
        }
        out
    }
}

} // verus!
