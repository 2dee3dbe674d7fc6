//! The read-only registry snapshot: what versions each package has
//! published, with their yank status.

use vstd::prelude::*;

verus! {

/// One published version of a package: its version string and whether the
/// registry has retracted it.
#[derive(Debug)]
pub struct VersionRecord {
    pub version: String,
    pub yanked: bool,
}

pub struct VersionRecordView {
    pub version: Seq<char>,
    pub yanked: bool,
}

impl View for VersionRecord {
    type V = VersionRecordView;

    open spec fn view(&self) -> VersionRecordView {
        VersionRecordView { version: self.version@, yanked: self.yanked }
    }
}

pub open spec fn record_views(s: Seq<VersionRecord>) -> Seq<VersionRecordView> {
    s.map_values(|r: VersionRecord| r@)
}

/// All records the registry holds under one package name.
#[derive(Debug)]
pub struct RegistryCrate {
    pub name: String,
    pub records: Vec<VersionRecord>,
}

pub struct RegistryCrateView {
    pub name: Seq<char>,
    pub records: Seq<VersionRecordView>,
}

impl View for RegistryCrate {
    type V = RegistryCrateView;

    open spec fn view(&self) -> RegistryCrateView {
        RegistryCrateView { name: self.name@, records: record_views(self.records@) }
    }
}

pub open spec fn crate_views(s: Seq<RegistryCrate>) -> Seq<RegistryCrateView> {
    s.map_values(|c: RegistryCrate| c@)
}

/// A snapshot of the registry, immutable once built: one entry per package
/// name. Lookups take the first entry with the asked-for name.
#[derive(Debug)]
pub struct RegistrySnapshot {
    pub entries: Vec<RegistryCrate>,
}

impl View for RegistrySnapshot {
    type V = Seq<RegistryCrateView>;

    open spec fn view(&self) -> Seq<RegistryCrateView> {
        crate_views(self.entries@)
    }
}

/// The records under `name`, or `None` where the snapshot has no entry of
/// that name.
pub open spec fn spec_registry_lookup(
    entries: Seq<RegistryCrateView>,
    name: Seq<char>,
) -> Option<Seq<VersionRecordView>>
    decreases entries.len(),
{
    if entries.len() == 0 {
        Option::None
    } else if entries[0].name == name {
        Option::Some(entries[0].records)
    } else {
        spec_registry_lookup(entries.skip(1), name)
    }
}

impl RegistrySnapshot {
    /// A snapshot with no packages.
    pub fn new() -> (r: RegistrySnapshot)
        ensures
            r@ == Seq::<RegistryCrateView>::empty(),
    {
        let r = RegistrySnapshot { entries: Vec::new() };
        proof {
            assert(r@ =~= Seq::<RegistryCrateView>::empty());
        }
        r
    }

    /// Append the records published under one package name.
    pub fn add_crate(&mut self, name: String, records: Vec<VersionRecord>)
        ensures
            final(self)@ == old(self)@.push(
                RegistryCrateView { name: name@, records: record_views(records@) },
            ),
    {
        let ghost prior = self@;
        let ghost entry_view = RegistryCrateView { name: name@, records: record_views(records@) };
        self.entries.push(RegistryCrate { name, records });
        proof {
            assert(self@ =~= prior.push(entry_view));
        }
    }

    /// Find the records of `name`; `None` where the package is unknown.
    pub fn lookup(&self, name: &String) -> (r: Option<&Vec<VersionRecord>>)
        ensures
            match r {
                Option::None => spec_registry_lookup(self@, name@) is None,
                Option::Some(recs) => spec_registry_lookup(self@, name@) == Option::Some(
                    record_views(recs@),
                ),
            },
    {
        let mut i: usize = 0;
        proof {
            assert(self@.skip(0) =~= self@);
        }
        while i < self.entries.len()
            invariant
                0 <= i <= self.entries@.len(),
                self@.len() == self.entries@.len(),
                spec_registry_lookup(self@, name@) == spec_registry_lookup(
                    self@.skip(i as int),
                    name@,
                ),
            decreases self.entries@.len() - i,
        {
            let e = &self.entries[i];
            proof {
                assert(self@.skip(i as int)[0] == e@);
            }
            if e.name == *name {
                return Option::Some(&e.records);
            }
            proof {
                assert(self@.skip(i as int).skip(1) =~= self@.skip(i as int + 1));
            }
            i = i + 1;
        }
        proof {
            assert(self@.skip(i as int).len() == 0);
        }
        Option::None
    }
}

} // verus!
