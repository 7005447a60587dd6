//! The values that the information panel shows of the container engine's version.
use vstd::prelude::*;

verus! {

/// What the panel reads of the engine's version report.
pub struct Version {
    pub api_version: Option<String>,
    pub build_time: Option<String>,
    pub git_commit: Option<String>,
    pub go_version: Option<String>,
    pub os: Option<String>,
    pub arch: Option<String>,
    pub version: Option<String>,
}

/// The value of each row of the panel; `None` where nothing is known.
pub struct VersionRows {
    pub api_version: Option<String>,
    pub built_time: Option<String>,
    pub git_commit: Option<String>,
    pub go_version: Option<String>,
    pub os: Option<String>,
    pub arch: Option<String>,
    pub version: Option<String>,
}

/// The view of an optional string.
pub open spec fn opt_view(s: Option<String>) -> Option<Seq<char>> {
    match s {
        Some(s) => Some(s@),
        None => None,
    }
}

/// An empty string says nothing: it counts as no value.
pub open spec fn non_empty_view(s: Option<Seq<char>>) -> Option<Seq<char>> {
    match s {
        Some(t) => if t.len() == 0 {
            None
        } else {
            Some(t)
        },
        None => None,
    }
}

/// Law: only an empty string is dropped; any other string is kept as it is,
/// and no value stays no value.
pub proof fn law_non_empty_drops_only_empty(s: Option<Seq<char>>)
    ensures
        s is None ==> non_empty_view(s) is None,
        s == Some(Seq::<char>::empty()) ==> non_empty_view(s) is None,
        s matches Some(t) && t.len() > 0 ==> non_empty_view(s) == s,
{
}

/// Drops an empty string.
pub fn non_empty(s: Option<String>) -> (r: Option<String>)
    ensures
        opt_view(r) == non_empty_view(opt_view(s)),
{
    match s {
        Some(t) => {
            if t.as_str().is_empty() {
                None
            } else {
                Some(t)
            }
        },
        None => None,
    }
}

/// The rows that the panel shows for a version report: each field as it
/// came, but an empty git commit counts as unknown.
pub fn version_rows(version: Version) -> (r: VersionRows)
    ensures
        opt_view(r.api_version) == opt_view(version.api_version),
        opt_view(r.built_time) == opt_view(version.build_time),
        opt_view(r.git_commit) == non_empty_view(opt_view(version.git_commit)),
        opt_view(r.go_version) == opt_view(version.go_version),
        opt_view(r.os) == opt_view(version.os),
        opt_view(r.arch) == opt_view(version.arch),
        opt_view(r.version) == opt_view(version.version),
{
    VersionRows {
        api_version: version.api_version,
        built_time: version.build_time,
        git_commit: non_empty(version.git_commit),
        go_version: version.go_version,
        os: version.os,
        arch: version.arch,
        version: version.version,
    }
}

} // verus!
