//! The data model: a project's manifest and what the registry says about
//! packages, their versions and their advisories.
use vstd::prelude::*;
use crate::strmap::StringMap;
use crate::text::concat;

verus! {

/// A project manifest (`package.json`).
pub struct Package {
    pub name: String,
    pub version: String,
    pub description: Option<String>,
    pub main: Option<String>,
    pub types: Option<String>,
    pub keywords: Option<Vec<String>>,
    pub author: Option<String>,
    pub license: Option<String>,
    pub repository: Option<String>,
    pub homepage: Option<String>,
    pub bugs: Option<String>,
    pub dependencies: Option<StringMap<String>>,
    pub dev_dependencies: Option<StringMap<String>>,
    pub peer_dependencies: Option<StringMap<String>>,
    pub optional_dependencies: Option<StringMap<String>>,
    pub engines: Option<StringMap<String>>,
    pub bin: Option<StringMap<String>>,
    pub scripts: Option<StringMap<String>>,
}

/// The map that an optional dependency table holds; an absent table holds
/// nothing.
pub open spec fn table_view(t: Option<StringMap<String>>) -> Map<Seq<char>, String> {
    match t {
        Some(m) => m@,
        None => Map::empty(),
    }
}

/// The dependencies that installing a project brings in: its regular,
/// peer and optional dependencies, a later table overriding an earlier
/// one. Development dependencies are not among them.
pub open spec fn all_dependencies_view(p: Package) -> Map<Seq<char>, String> {
    table_view(p.dependencies).union_prefer_right(table_view(p.peer_dependencies)).union_prefer_right(
        table_view(p.optional_dependencies),
    )
}

/// The text `name@version` that names one version of a package.
pub open spec fn identifier_view(name: Seq<char>, version: Seq<char>) -> Seq<char> {
    name + "@"@ + version
}

/// Inserts `name -> version` into an optional table, creating it if absent.
fn insert_into_table(table: &mut Option<StringMap<String>>, name: String, version: String)
    ensures
        *final(table) is Some,
        table_view(*final(table)) == table_view(*old(table)).insert(name@, version),
{
    let mut m = match table.take() {
        Some(m) => m,
        None => StringMap::new(),
    };
    m.insert(name, version);
    *table = Some(m);
}

impl Package {
    /// A manifest with the given name and version and nothing else.
    pub fn new(name: String, version: String) -> (p: Package)
        ensures
            p.name == name,
            p.version == version,
            p.description is None,
            p.main is None,
            p.types is None,
            p.keywords is None,
            p.author is None,
            p.license is None,
            p.repository is None,
            p.homepage is None,
            p.bugs is None,
            p.dependencies is None,
            p.dev_dependencies is None,
            p.peer_dependencies is None,
            p.optional_dependencies is None,
            p.engines is None,
            p.bin is None,
            p.scripts is None,
    {
        Package {
            name,
            version,
            description: None,
            main: None,
            types: None,
            keywords: None,
            author: None,
            license: None,
            repository: None,
            homepage: None,
            bugs: None,
            dependencies: None,
            dev_dependencies: None,
            peer_dependencies: None,
            optional_dependencies: None,
            engines: None,
            bin: None,
            scripts: None,
        }
    }

    /// The same manifest with the given description.
    pub fn set_description(self, desc: String) -> (p: Package)
        ensures
            p == (Package { description: Some(desc), ..self }),
    {
        let mut p = self;
        p.description = Some(desc);
        p
    }

    /// The same manifest with the given entry point.
    pub fn set_main(self, main: String) -> (p: Package)
        ensures
            p == (Package { main: Some(main), ..self }),
    {
        let mut p = self;
        p.main = Some(main);
        p
    }

    /// The same manifest with the given dependency table.
    pub fn set_dependencies(self, deps: StringMap<String>) -> (p: Package)
        ensures
            p == (Package { dependencies: Some(deps), ..self }),
    {
        let mut p = self;
        p.dependencies = Some(deps);
        p
    }

    /// Records a dependency, creating the table if there was none; an
    /// existing entry for the same name is replaced.
    pub fn add_dependency(&mut self, name: String, version: String)
        ensures
            final(self).dependencies is Some,
            table_view(final(self).dependencies) == table_view(old(self).dependencies).insert(name@, version),
            *final(self) == (Package { dependencies: final(self).dependencies, ..*old(self) }),
    {
        insert_into_table(&mut self.dependencies, name, version);
    }

    /// Records a development dependency, creating the table if there was
    /// none; an existing entry for the same name is replaced.
    pub fn add_dev_dependency(&mut self, name: String, version: String)
        ensures
            final(self).dev_dependencies is Some,
            table_view(final(self).dev_dependencies) == table_view(old(self).dev_dependencies).insert(
                name@,
                version,
            ),
            *final(self) == (Package { dev_dependencies: final(self).dev_dependencies, ..*old(self) }),
    {
        insert_into_table(&mut self.dev_dependencies, name, version);
    }

    /// The dependencies that installing the project brings in: regular,
    /// then peer, then optional ones, a later table overriding an earlier.
    pub fn all_dependencies(&self) -> (all: StringMap<String>)
        ensures
            all@ == all_dependencies_view(*self),
    {
        let mut all: StringMap<String> = StringMap::new();
        if let Some(deps) = &self.dependencies {
            all.extend_from(deps);
        }
        if let Some(peer) = &self.peer_dependencies {
            all.extend_from(peer);
        }
        if let Some(opt) = &self.optional_dependencies {
            all.extend_from(opt);
        }
        proof {
            assert(Map::<Seq<char>, String>::empty().union_prefer_right(table_view(self.dependencies))
                =~= table_view(self.dependencies));
            assert(table_view(self.dependencies).union_prefer_right(Map::<Seq<char>, String>::empty())
                =~= table_view(self.dependencies));
            let a = table_view(self.dependencies).union_prefer_right(table_view(self.peer_dependencies));
            assert(a.union_prefer_right(Map::<Seq<char>, String>::empty()) =~= a);
        }
        all
    }

    /// The text `name@version`.
    pub fn identifier(&self) -> (id: String)
        ensures
            id@ == identifier_view(self.name@, self.version@),
    {
        let mut id = concat(self.name.as_str(), "@");
        id.append(self.version.as_str());
        id
    }
}

/// Development dependencies never change what installing a project brings
/// in.
pub proof fn lemma_dev_dependencies_not_installed(p: Package, dev: Option<StringMap<String>>)
    ensures
        all_dependencies_view(Package { dev_dependencies: dev, ..p }) == all_dependencies_view(p),
{
}

/// What the registry knows of one package.
pub struct PackageMetadata {
    pub name: String,
    pub versions: StringMap<PackageVersion>,
    pub dist_tags: DistTags,
    pub time: StringMap<String>,
}

/// The distribution tags of a package.
pub struct DistTags {
    pub latest: String,
}

/// One published version of a package.
pub struct PackageVersion {
    pub version: String,
    pub name: String,
    pub description: Option<String>,
    pub dependencies: Option<StringMap<String>>,
    pub dist: DistInfo,
}

/// Where a version's tarball is and how to check it.
pub struct DistInfo {
    pub tarball: String,
    pub shasum: String,
    pub integrity: Option<String>,
}

/// One package of a search's results.
pub struct SearchPackage {
    pub name: String,
    pub version: String,
    pub description: Option<String>,
    pub keywords: Option<Vec<String>>,
    pub date: Option<String>,
}

/// A security advisory; every field may be missing from the registry's
/// answer and then takes its empty value.
pub struct Advisory {
    pub id: u32,
    pub title: String,
    pub severity: String,
    pub package_name: Option<String>,
    pub vulnerable_versions: Option<String>,
    pub patched_versions: Option<String>,
}

impl Default for Advisory {
    fn default() -> (a: Advisory)
        ensures
            a.id == 0,
            a.title@ == Seq::<char>::empty(),
            a.severity@ == Seq::<char>::empty(),
            a.package_name is None,
            a.vulnerable_versions is None,
            a.patched_versions is None,
    {
        Advisory {
            id: 0,
            title: String::new(),
            severity: String::new(),
            package_name: None,
            vulnerable_versions: None,
            patched_versions: None,
        }
    }
}

/// The registry's answer to an audit request.
pub struct AuditResponse {
    pub advisories: StringMap<Advisory>,
    pub metadata: AuditMetadata,
}

impl Default for AuditResponse {
    fn default() -> (r: AuditResponse)
        ensures
            r.advisories@ == Map::<Seq<char>, Advisory>::empty(),
            r.metadata.vulnerabilities == (VulnerabilityCounts { info: 0, low: 0, moderate: 0, high: 0, critical: 0 }),
    {
        AuditResponse { advisories: StringMap::new(), metadata: AuditMetadata::default() }
    }
}

/// Summary figures of an audit.
pub struct AuditMetadata {
    pub vulnerabilities: VulnerabilityCounts,
}

impl Default for AuditMetadata {
    fn default() -> (m: AuditMetadata)
        ensures
            m.vulnerabilities == (VulnerabilityCounts { info: 0, low: 0, moderate: 0, high: 0, critical: 0 }),
    {
        AuditMetadata { vulnerabilities: VulnerabilityCounts::default() }
    }
}

/// How many vulnerabilities an audit found, by severity.
pub struct VulnerabilityCounts {
    pub info: u32,
    pub low: u32,
    pub moderate: u32,
    pub high: u32,
    pub critical: u32,
}

impl Default for VulnerabilityCounts {
    fn default() -> (c: VulnerabilityCounts)
        ensures
            c == (VulnerabilityCounts { info: 0, low: 0, moderate: 0, high: 0, critical: 0 }),
    {
        VulnerabilityCounts { info: 0, low: 0, moderate: 0, high: 0, critical: 0 }
    }
}

impl VulnerabilityCounts {
    /// The number of vulnerabilities of every severity together.
    pub fn total(&self) -> (t: u32)
        requires
            self.info + self.low + self.moderate + self.high + self.critical <= u32::MAX,
        ensures
            t == self.info + self.low + self.moderate + self.high + self.critical,
    {
        self.info + self.low + self.moderate + self.high + self.critical
    }
}

} // verus!
