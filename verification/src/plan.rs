//! The planner's vocabulary as the rest of the crate needs it: bump levels,
//! package identities, a workspace to resolve names in, and bump files.
use vstd::prelude::*;

use crate::text::{chars_of, same, Text};
use crate::versions::SemVer;

verus! {

broadcast use crate::views::lemma_text_deep_view;

/// How far a release moves a version. `Unchanged` is not a release.
#[derive(Clone, Copy, Debug, PartialEq, Eq, Structural)]
pub enum BumpLevel {
    Unchanged,
    Patch,
    Minor,
    Major,
}

/// The order bump levels compare in: `Unchanged < Patch < Minor < Major`.
pub open spec fn level_rank(l: BumpLevel) -> int {
    match l {
        BumpLevel::Unchanged => 0,
        BumpLevel::Patch => 1,
        BumpLevel::Minor => 2,
        BumpLevel::Major => 3,
    }
}

/// The higher of two levels.
pub open spec fn higher(a: BumpLevel, b: BumpLevel) -> BumpLevel {
    if level_rank(b) > level_rank(a) {
        b
    } else {
        a
    }
}

impl BumpLevel {
    /// Whether the level releases anything.
    pub fn is_release(self) -> (b: bool)
        ensures
            b == (self != BumpLevel::Unchanged),
    {
        match self {
            BumpLevel::Unchanged => false,
            _ => true,
        }
    }

    /// The level's place in the order.
    pub fn rank(self) -> (r: u8)
        ensures
            r == level_rank(self),
    {
        match self {
            BumpLevel::Unchanged => 0,
            BumpLevel::Patch => 1,
            BumpLevel::Minor => 2,
            BumpLevel::Major => 3,
        }
    }

    /// The higher of `self` and `other`.
    pub fn max(self, other: BumpLevel) -> (m: BumpLevel)
        ensures
            m == higher(self, other),
    {
        if other.rank() > self.rank() {
            other
        } else {
            self
        }
    }
}

/// How a breaking change moves a version below 1.0.0.
#[derive(Clone, Copy, Debug, PartialEq, Eq, Structural)]
pub enum Versioning {
    ZeroMajor,
    Semver,
}

/// How `versioning` is spelled in the config file.
pub open spec fn versioning_word(v: Versioning) -> Seq<char> {
    match v {
        Versioning::ZeroMajor => "zero-major"@,
        Versioning::Semver => "semver"@,
    }
}

impl Versioning {
    /// How the mode is spelled in `_config.toml`.
    pub fn word(self) -> (w: &'static str)
        ensures
            w@ == versioning_word(self),
    {
        match self {
            Versioning::ZeroMajor => "zero-major",
            Versioning::Semver => "semver",
        }
    }
}

/// Where a package's dependencies are resolved: when it is installed, or
/// when it is built, with the dependencies bundled into the artifact.
#[derive(Clone, Copy, Debug, PartialEq, Eq, Structural)]
pub enum ResolvesDependenciesAt {
    Install,
    Build(BuildResolution),
}

/// How a build-time resolution was established. Configuration only ever
/// declares one.
#[derive(Clone, Copy, Debug, PartialEq, Eq, Structural)]
pub enum BuildResolution {
    Declared,
}

/// Which package manager a package belongs to.
#[derive(Clone, Copy, Debug, PartialEq, Eq, Structural)]
pub enum Ecosystem {
    Cargo,
    Npm,
}

/// A package: its ecosystem and the name its manifest declares.
#[derive(Clone, Debug)]
pub struct PackageId {
    pub ecosystem: Ecosystem,
    pub name: String,
}

impl PackageId {
    pub fn new(ecosystem: Ecosystem, name: &str) -> (p: PackageId)
        ensures
            p.ecosystem == ecosystem,
            p.name@ == name@,
    {
        PackageId { ecosystem, name: name.to_owned() }
    }

    /// A copy of this identity.
    pub fn duplicate(&self) -> (p: PackageId)
        ensures
            p.ecosystem == self.ecosystem,
            p.name@ == self.name@,
    {
        PackageId { ecosystem: self.ecosystem, name: self.name.clone() }
    }
}

/// A package's identity as the contracts compare it.
pub open spec fn id_view(p: PackageId) -> (Ecosystem, Seq<char>) {
    (p.ecosystem, p.name@)
}

/// A workspace member: its identity, its current version, whether a
/// registry would take it, and the directory of its manifest relative to the
/// repository root (empty for the root package).
#[derive(Clone, Debug)]
pub struct Package {
    pub id: PackageId,
    pub version: SemVer,
    pub publishable: bool,
    pub manifest_dir: String,
}

impl Package {
    /// A member whose manifest sits at the repository root.
    pub fn new(id: PackageId, version: SemVer, publishable: bool) -> (p: Package)
        ensures
            p.id == id,
            p.version == version,
            p.publishable == publishable,
            p.manifest_dir@ == Seq::<char>::empty(),
    {
        Package { id, version, publishable, manifest_dir: String::new() }
    }

    /// The same member, with its manifest in `dir`.
    pub fn with_manifest_dir(self, dir: String) -> (p: Package)
        ensures
            p.id == self.id,
            p.version == self.version,
            p.publishable == self.publishable,
            p.manifest_dir == dir,
    {
        Package { id: self.id, version: self.version, publishable: self.publishable, manifest_dir: dir }
    }
}

/// The packages a repository holds.
#[derive(Debug)]
pub struct Workspace {
    pub packages: Vec<Package>,
}

/// Why a name does not resolve to one package.
#[derive(Clone, Copy, Debug, PartialEq, Eq, Structural)]
pub enum UnknownReason {
    Missing,
    Ambiguous,
}

/// How many packages in `ps` are named `name`.
pub open spec fn count_named(ps: Seq<Package>, name: Seq<char>) -> nat
    decreases ps.len(),
{
    if ps.len() == 0 {
        0
    } else {
        count_named(ps.drop_last(), name) + (if ps.last().id.name@ == name {
            1nat
        } else {
            0nat
        })
    }
}

/// The last package in `ps` named `name`, or `-1`.
pub open spec fn last_named(ps: Seq<Package>, name: Seq<char>) -> int
    decreases ps.len(),
{
    if ps.len() == 0 {
        -1
    } else if ps.last().id.name@ == name {
        ps.len() - 1
    } else {
        last_named(ps.drop_last(), name)
    }
}

/// What `name` resolves to: the one package it names, or why not.
pub open spec fn resolution(ps: Seq<Package>, name: Seq<char>) -> Result<int, UnknownReason> {
    let c = count_named(ps, name);
    if c == 0 {
        Err(UnknownReason::Missing)
    } else if c > 1 {
        Err(UnknownReason::Ambiguous)
    } else {
        Ok(last_named(ps, name))
    }
}

proof fn lemma_last_named_in_range(ps: Seq<Package>, name: Seq<char>)
    ensures
        count_named(ps, name) > 0 ==> 0 <= last_named(ps, name) < ps.len() && ps[last_named(
            ps,
            name,
        )].id.name@ == name,
    decreases ps.len(),
{
    if ps.len() > 0 {
        lemma_last_named_in_range(ps.drop_last(), name);
    }
}

impl Workspace {
    pub fn new(packages: Vec<Package>) -> (w: Workspace)
        ensures
            w.packages == packages,
    {
        Workspace { packages }
    }

    /// The one package named `name`, or why there is not one.
    pub fn resolve(&self, name: &str) -> (r: Result<PackageId, UnknownReason>)
        ensures
            match resolution(self.packages@, name@) {
                Ok(i) => r matches Ok(p) && 0 <= i < self.packages@.len() && id_view(p) == id_view(
                    self.packages@[i].id,
                ),
                Err(why) => r == Err::<PackageId, UnknownReason>(why),
            },
    {
        let n = chars_of(name);
        self.resolve_text(&n)
    }

    /// The one package named `name`, or why there is not one.
    pub fn resolve_text(&self, name: &[char]) -> (r: Result<PackageId, UnknownReason>)
        ensures
            match resolution(self.packages@, name@) {
                Ok(i) => r matches Ok(p) && 0 <= i < self.packages@.len() && id_view(p) == id_view(
                    self.packages@[i].id,
                ),
                Err(why) => r == Err::<PackageId, UnknownReason>(why),
            },
    {
        let ghost ps = self.packages@;
        let mut count: usize = 0;
        let mut found: usize = 0;
        let mut i: usize = 0;
        while i < self.packages.len()
            invariant
                ps == self.packages@,
                i <= ps.len(),
                count <= i,
                count == count_named(ps.take(i as int), name@),
                count > 0 ==> found == last_named(ps.take(i as int), name@),
            decreases ps.len() - i,
        {
            assert(ps.take(i + 1).drop_last() == ps.take(i as int));
            let candidate = chars_of(self.packages[i].id.name.as_str());
            if same(&candidate, name) {
                count = count + 1;
                found = i;
            }
            i = i + 1;
        }
        assert(ps.take(ps.len() as int) == ps);
        proof {
            lemma_last_named_in_range(ps, name@);
        }
        if count == 0 {
            Err(UnknownReason::Missing)
        } else if count > 1 {
            Err(UnknownReason::Ambiguous)
        } else {
            Ok(self.packages[found].id.duplicate())
        }
    }
}

/// One planner input: package identities with the level each is bumped by.
#[derive(Debug)]
pub struct BumpFile {
    pub id: String,
    pub entries: Vec<(PackageId, BumpLevel)>,
    pub note: String,
}

} // verus!
