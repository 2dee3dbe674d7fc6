//! The workspace graph: the packages of a project and its member list.

use vstd::prelude::*;

verus! {

/// One dependency requirement of a package: a package name, the textual
/// version requirement, and the source the dependency comes from (`None`
/// for an implicit one).
#[derive(Debug)]
pub struct Dependency {
    pub name: String,
    pub req: String,
    pub source: Option<String>,
}

pub struct DependencyView {
    pub name: Seq<char>,
    pub req: Seq<char>,
    pub source: Option<Seq<char>>,
}

impl View for Dependency {
    type V = DependencyView;

    open spec fn view(&self) -> DependencyView {
        DependencyView {
            name: self.name@,
            req: self.req@,
            source: match self.source {
                Option::None => Option::None,
                Option::Some(s) => Option::Some(s@),
            },
        }
    }
}

pub open spec fn dep_views(s: Seq<Dependency>) -> Seq<DependencyView> {
    s.map_values(|d: Dependency| d@)
}

impl Dependency {
    /// A structurally equal copy.
    pub fn duplicate(&self) -> (r: Dependency)
        ensures
            r@ == self@,
    {
        Dependency {
            name: self.name.clone(),
            req: self.req.clone(),
            source: match &self.source {
                Option::None => Option::None,
                Option::Some(s) => Option::Some(s.clone()),
            },
        }
    }
}

/// A package of the workspace graph: its identifier, name, manifest
/// location and direct dependencies.
#[derive(Debug)]
pub struct Package {
    pub id: String,
    pub name: String,
    pub manifest_path: String,
    pub dependencies: Vec<Dependency>,
}

pub struct PackageView {
    pub id: Seq<char>,
    pub name: Seq<char>,
    pub manifest_path: Seq<char>,
    pub dependencies: Seq<DependencyView>,
}

impl View for Package {
    type V = PackageView;

    open spec fn view(&self) -> PackageView {
        PackageView {
            id: self.id@,
            name: self.name@,
            manifest_path: self.manifest_path@,
            dependencies: dep_views(self.dependencies@),
        }
    }
}

pub open spec fn package_views(s: Seq<Package>) -> Seq<PackageView> {
    s.map_values(|p: Package| p@)
}

impl Package {
    /// A structurally equal copy.
    pub fn duplicate(&self) -> (r: Package)
        ensures
            r@ == self@,
    {
        let mut dependencies: Vec<Dependency> = Vec::new();
        let mut i: usize = 0;
        while i < self.dependencies.len()
            invariant
                0 <= i <= self.dependencies@.len(),
                dep_views(dependencies@) =~= dep_views(self.dependencies@).take(i as int),
            decreases self.dependencies@.len() - i,
        {
            let ghost prefix = dependencies@;
            dependencies.push(self.dependencies[i].duplicate());
            proof {
                assert(dep_views(dependencies@) =~= dep_views(prefix).push(
                    self.dependencies@[i as int]@,
                ));
                assert(dep_views(dependencies@) =~= dep_views(self.dependencies@).take(
                    i as int + 1,
                ));
            }
            i = i + 1;
        }
        proof {
            assert(dep_views(self.dependencies@).take(self.dependencies@.len() as int)
                =~= dep_views(self.dependencies@));
        }
        let r = Package {
            id: self.id.clone(),
            name: self.name.clone(),
            manifest_path: self.manifest_path.clone(),
            dependencies,
        };
        proof {
            assert(r@ == self@);
        }
        r
    }
}

pub struct WorkspaceView {
    pub packages: Seq<PackageView>,
    pub members: Seq<Seq<char>>,
}

/// The workspace graph: all packages of the project, and the identifiers
/// of the members the user owns, in recorded order. Lookups by identifier
/// take the first package with that identifier.
#[derive(Debug)]
pub struct Workspace {
    pub packages: Vec<Package>,
    pub members: Vec<String>,
}

impl View for Workspace {
    type V = WorkspaceView;

    open spec fn view(&self) -> WorkspaceView {
        WorkspaceView {
            packages: package_views(self.packages@),
            members: self.members@.map_values(|s: String| s@),
        }
    }
}

/// The first package carrying `id`, or `None`.
pub open spec fn spec_lookup_package(
    packages: Seq<PackageView>,
    id: Seq<char>,
) -> Option<PackageView>
    decreases packages.len(),
{
    if packages.len() == 0 {
        Option::None
    } else if packages[0].id == id {
        Option::Some(packages[0])
    } else {
        spec_lookup_package(packages.skip(1), id)
    }
}

impl Workspace {
    /// A graph over the given packages and member identifiers.
    pub fn new(packages: Vec<Package>, members: Vec<String>) -> (r: Workspace)
        ensures
            r@.packages == package_views(packages@),
            r@.members == members@.map_values(|s: String| s@),
    {
        Workspace { packages, members }
    }

    /// Find the package with `id`; `None` where the identifier is unknown.
    pub fn lookup_package(&self, id: &String) -> (r: Option<&Package>)
        ensures
            match r {
                Option::None => spec_lookup_package(self@.packages, id@) is None,
                Option::Some(p) => spec_lookup_package(self@.packages, id@) == Option::Some(p@),
            },
    {
        let ghost pkgs = self@.packages;
        let mut i: usize = 0;
        proof {
            assert(pkgs.skip(0) =~= pkgs);
        }
        while i < self.packages.len()
            invariant
                0 <= i <= self.packages@.len(),
                pkgs == self@.packages,
                pkgs.len() == self.packages@.len(),
                spec_lookup_package(pkgs, id@) == spec_lookup_package(pkgs.skip(i as int), id@),
            decreases self.packages@.len() - i,
        {
            let p = &self.packages[i];
            proof {
                assert(pkgs.skip(i as int)[0] == p@);
            }
            if p.id == *id {
                return Option::Some(p);
            }
            proof {
                assert(pkgs.skip(i as int).skip(1) =~= pkgs.skip(i as int + 1));
            }
            i = i + 1;
        }
        proof {
            assert(pkgs.skip(i as int).len() == 0);
        }
        Option::None
    }
}

} // verus!
