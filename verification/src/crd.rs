//! The copy-rule custom resource's spec types, and the startup preflight
//! check that the resource's registered type definition is present at the
//! schema version this build expects.
use vstd::prelude::*;

verus! {

/// An individual copy operation: which source field feeds which
/// destination field.
#[derive(Debug, Clone)]
pub struct PatchCopyItem {
    pub source: String,
    pub destination: String,
}

/// A patch strategy; a variant set kept open for future strategies.
#[derive(Debug, Clone)]
pub enum PatchStrategy {
    Copy { items: Vec<PatchCopyItem> },
}

/// The TradeSecret custom resource's spec: a copy rule between a source
/// and a destination secret, both in the rule's own namespace.
#[derive(Debug, Clone)]
pub struct TradeSecretSpec {
    pub source: String,
    pub destination: String,
    pub strategy: PatchStrategy,
}

/// What the preflight check reads of the registered type definition: the
/// declared schema version names, where the definition carries any.
pub struct CrdSummary {
    pub versions: Option<Vec<String>>,
}

/// Startup-only failure: the type definition is absent or not at the
/// expected schema version. Fatal to process startup, never retried.
#[derive(Debug, Clone, Copy, PartialEq, Eq, Structural)]
pub enum DefinitionError {
    /// The type definition was not found in the external store.
    CrdNotFound,
    /// The definition carries no version list.
    MissingVersions,
    /// The definition declares zero or several schema versions.
    UnexpectedVersionCount,
    /// The single declared version is not the one this build expects.
    WrongVersion,
}

/// The schema version this build expects.
pub open spec fn expected_version() -> Seq<char> {
    "v1alpha1"@
}

/// The schema version this build expects, for callers that fetch or
/// register the definition.
pub fn expected_crd_version() -> (r: &'static str)
    ensures
        r@ == expected_version(),
{
    "v1alpha1"
}

/// The preflight gate: given what a fetch of the type definition found
/// (`None` when the definition was absent or inaccessible), pass only a
/// definition that declares exactly the expected schema version.
pub fn check_crd_status(fetched: &Option<CrdSummary>) -> (r: Result<(), DefinitionError>)
    ensures
        match r {
            Ok(_) => (fetched matches Some(c) && c.versions matches Some(v) && v@.len() == 1
                && v@[0]@ == expected_version()),
            Err(e) => match e {
                DefinitionError::CrdNotFound => fetched is None,
                DefinitionError::MissingVersions => (fetched matches Some(c)
                    && c.versions is None),
                DefinitionError::UnexpectedVersionCount => (fetched matches Some(c)
                    && c.versions matches Some(v) && v@.len() != 1),
                DefinitionError::WrongVersion => (fetched matches Some(c) && c.versions matches Some(
                    v,
                ) && v@.len() == 1 && v@[0]@ != expected_version()),
            },
        },
{
    match fetched {
        None => Err(DefinitionError::CrdNotFound),
        Some(c) => match &c.versions {
            None => Err(DefinitionError::MissingVersions),
            Some(v) => {
                if v.len() != 1 {
                    Err(DefinitionError::UnexpectedVersionCount)
                } else {
                    let expected: String = expected_crd_version().to_owned();
                    if v[0] == expected {
                        Ok(())
                    } else {
                        Err(DefinitionError::WrongVersion)
                    }
                }
            },
        },
    }
}

} // verus!
