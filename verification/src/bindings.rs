//! What the Node.js bindings hand to JavaScript: package summaries.
use vstd::prelude::*;
use crate::package::{PackageMetadata, SearchPackage};

verus! {

/// A package as the bindings describe it to JavaScript.
pub struct JsPackageInfo {
    pub name: String,
    pub version: String,
    pub description: Option<String>,
}

impl JsPackageInfo {
    /// The description of a search result.
    pub fn from_search(p: &SearchPackage) -> (j: JsPackageInfo)
        ensures
            j.name == p.name,
            j.version == p.version,
            j.description == p.description,
    {
        JsPackageInfo {
            name: p.name.clone(),
            version: p.version.clone(),
            description: match &p.description {
                Some(d) => Some(d.clone()),
                None => None,
            },
        }
    }
}

/// What the bindings report of a package: its name, its latest tag, how
/// many versions it has, and the description of the latest version and
/// whether that version has dependencies.
pub struct PackageSummary {
    pub name: String,
    pub latest: String,
    pub versions: usize,
    pub description: Option<String>,
    pub has_dependencies: bool,
}

/// The summary of a package's metadata.
pub fn package_summary(metadata: &PackageMetadata) -> (s: PackageSummary)
    ensures
        s.name == metadata.name,
        s.latest == metadata.dist_tags.latest,
        s.versions == metadata.versions@.dom().len(),
        s.description == (if metadata.versions@.contains_key(metadata.dist_tags.latest@) {
            metadata.versions@[metadata.dist_tags.latest@].description
        } else {
            None
        }),
        s.has_dependencies == (metadata.versions@.contains_key(metadata.dist_tags.latest@)
            && metadata.versions@[metadata.dist_tags.latest@].dependencies is Some),
{
    let latest = metadata.dist_tags.latest.as_str();
    let (description, has_dependencies) = match metadata.versions.get(latest) {
        Some(v) => (
            match &v.description {
                Some(d) => Some(d.clone()),
                None => None,
            },
            v.dependencies.is_some(),
        ),
        None => (None, false),
    };
    PackageSummary {
        name: metadata.name.clone(),
        latest: metadata.dist_tags.latest.clone(),
        versions: metadata.versions.len(),
        description,
        has_dependencies,
    }
}

} // verus!
