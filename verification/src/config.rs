//! What a run is told: where the two repositories are, which path the
//! submodule has in the host, and which branch of the dependent repository
//! counts as upstream.

use vstd::prelude::*;

verus! {

/// The settings of a run.
#[derive(Debug, PartialEq, Eq)]
pub struct Config {
    pub host_repo_path: String,
    pub dependent_repo_path: String,
    pub submodule_path: String,
    pub upstream: String,
}

/// Where the host repository is looked for when nothing else is said.
pub open spec fn default_host_repo_path() -> Seq<char> {
    "/home/xanewok/repos/rust"@
}

/// Where the dependent repository is looked for when nothing else is said.
pub open spec fn default_dependent_repo_path() -> Seq<char> {
    "/home/xanewok/repos/rls"@
}

/// The path of the submodule in the host repository.
pub open spec fn default_submodule_path() -> Seq<char> {
    "src/tools/rls"@
}

/// The branch of the dependent repository that counts as upstream.
pub open spec fn default_upstream() -> Seq<char> {
    "upstream/master"@
}

/// The given text, or the fallback where none is given.
pub open spec fn or_default(given: Option<Seq<char>>, fallback: Seq<char>) -> Seq<char> {
    match given {
        Some(text) => text,
        None => fallback,
    }
}

impl Config {
    /// The settings with the two repository paths as given, each replaced by
    /// its fallback where it is not given, and the submodule path and the
    /// upstream branch at their fixed values.
    pub fn new(host_repo_path: Option<String>, dependent_repo_path: Option<String>) -> (config:
        Config)
        ensures
            config.host_repo_path@ == or_default(
                host_repo_path.deep_view(),
                default_host_repo_path(),
            ),
            config.dependent_repo_path@ == or_default(
                dependent_repo_path.deep_view(),
                default_dependent_repo_path(),
            ),
            config.submodule_path@ == default_submodule_path(),
            config.upstream@ == default_upstream(),
    {
        Config {
            host_repo_path: match host_repo_path {
                Some(path) => path,
                None => "/home/xanewok/repos/rust".to_owned(),
            },
            dependent_repo_path: match dependent_repo_path {
                Some(path) => path,
                None => "/home/xanewok/repos/rls".to_owned(),
            },
            submodule_path: "src/tools/rls".to_owned(),
            upstream: "upstream/master".to_owned(),
        }
    }
}

} // verus!
