//! Package specifications, resolved versions, archive-path construction,
//! and the per-package installation state machine.

use vstd::prelude::*;

use crate::Error;
use crate::chars::{find_char, vec_find, chars_vec, string_from_chars};
use crate::semver::{SemVer, spec_parse, fits_u64};

verus! {

// ---------------------------------------------------------------------------
// What to install
// ---------------------------------------------------------------------------

/// What to install: a package name, an optional architecture (only the
/// native `core` package has one), and a branch selector.
#[derive(Debug)]
pub struct Package {
    pub name: String,
    pub arch: Option<String>,
    pub branch: String,
}

impl Package {
    /// A package specification.
    pub fn new(name: &str, arch: Option<String>, branch: &str) -> (r: Self)
        ensures
            r.name@ == name@,
            r.arch == arch,
            r.branch@ == branch@,
    {
        Package { name: name.to_owned(), arch, branch: branch.to_owned() }
    }

    /// The display label `"{name}@{branch}"`.
    pub fn display_string(&self) -> (r: String)
        ensures
            r@ == self.name@ + "@"@ + self.branch@,
    {
        let mut s = self.name.clone();
        s.append("@");
        s.append(self.branch.as_str());
        proof {
            assert(s@ =~= self.name@ + "@"@ + self.branch@);
        }
        s
    }

    /// The remote path of the version archive:
    /// `{name}/{branch}/{bucket}/{arch}/{version}.zip` with an
    /// architecture, `{name}/{branch}/{bucket}/{version}.zip` without.
    pub fn archive_path(&self, version: &Version) -> (r: String)
        ensures
            match self.arch {
                Some(a) => r@ == self.name@ + "/"@ + self.branch@ + "/"@ + version.major_minor@
                    + "/"@ + a@ + "/"@ + version.version@ + ".zip"@,
                None => r@ == self.name@ + "/"@ + self.branch@ + "/"@ + version.major_minor@
                    + "/"@ + version.version@ + ".zip"@,
            },
    {
        let mut s = self.name.clone();
        s.append("/");
        s.append(self.branch.as_str());
        s.append("/");
        s.append(version.major_minor.as_str());
        s.append("/");
        match &self.arch {
            Some(a) => {
                s.append(a.as_str());
                s.append("/");
                s.append(version.version.as_str());
                s.append(".zip");
                proof {
                    assert(s@ =~= self.name@ + "/"@ + self.branch@ + "/"@ + version.major_minor@
                        + "/"@ + self.arch.unwrap()@ + "/"@ + version.version@ + ".zip"@);
                }
            },
            None => {
                s.append(version.version.as_str());
                s.append(".zip");
                proof {
                    assert(s@ =~= self.name@ + "/"@ + self.branch@ + "/"@ + version.major_minor@
                        + "/"@ + version.version@ + ".zip"@);
                }
            },
        }
        s
    }

    /// `"{name}/{branch}/latest"`: the path of the distinguished latest
    /// pointer of this package's branch.
    pub fn latest_path(&self) -> (r: String)
        ensures
            r@ == self.name@ + "/"@ + self.branch@ + "/latest"@,
    {
        let mut s = self.name.clone();
        s.append("/");
        s.append(self.branch.as_str());
        s.append("/latest");
        proof {
            assert(s@ =~= self.name@ + "/"@ + self.branch@ + "/latest"@);
        }
        s
    }
}

// ---------------------------------------------------------------------------
// Resolved versions
// ---------------------------------------------------------------------------

/// A resolved installable version: the `major.minor` bucket used as a
/// path segment, and the full version text.
#[derive(Debug)]
pub struct Version {
    pub major_minor: String,
    pub version: String,
}

impl Version {
    /// Parses a `"{bucket}/{version}"` latest pointer: the text before
    /// the first `/` and the text after it.  Fails with
    /// `InvalidLatestPointer` when there is no separator.
    pub fn try_from(value: &str) -> (r: Result<Version, Error>)
        ensures
            match r {
                Ok(v) => find_char(value@, '/') >= 0 && v.major_minor@ == value@.subrange(
                    0,
                    find_char(value@, '/'),
                ) && v.version@ == value@.subrange(
                    find_char(value@, '/') + 1,
                    value@.len() as int,
                ),
                Err(e) => e == Error::InvalidLatestPointer && find_char(value@, '/') == -1,
            },
    {
        let cs = chars_vec(value);
        let n = cs.len();
        match vec_find(&cs, '/') {
            Some(i) => {
                let major_minor = string_from_chars(&cs, 0, i);
                let version = string_from_chars(&cs, i + 1, n);
                Ok(Version { major_minor, version })
            },
            None => Err(Error::InvalidLatestPointer),
        }
    }

    /// The resolved form of a parsed semantic version: its bucket and its
    /// canonical text.  The bucket is always `"{major}.{minor}"` of the
    /// version.
    pub fn of_semver(v: &SemVer) -> (r: Version)
        ensures
            r.major_minor@ == v.spec_bucket(),
            r.version@ == v.spec_format(),
    {
        Version { major_minor: v.bucket(), version: v.to_version_string() }
    }

    /// The display text `"{bucket}/{version}"`.
    pub fn display_string(&self) -> (r: String)
        ensures
            r@ == self.major_minor@ + "/"@ + self.version@,
    {
        let mut s = self.major_minor.clone();
        s.append("/");
        s.append(self.version.as_str());
        proof {
            assert(s@ =~= self.major_minor@ + "/"@ + self.version@);
        }
        s
    }
}

/// Resolves the body of a `latest` resource: the `"{bucket}/{version}"`
/// pointer, and the semantic version parsed from its version part.
pub fn resolve_latest(body: &str) -> (r: Result<(Version, SemVer), Error>)
    ensures
        match r {
            Ok(p) => {
                &&& find_char(body@, '/') >= 0
                &&& p.0.major_minor@ == body@.subrange(0, find_char(body@, '/'))
                &&& p.0.version@ == body@.subrange(find_char(body@, '/') + 1, body@.len() as int)
                &&& p.1.wf()
                &&& spec_parse(p.0.version@) == Some(p.1.model())
            },
            Err(e) => {
                ||| (e == Error::InvalidLatestPointer && find_char(body@, '/') == -1)
                ||| (e == Error::MalformedVersion && find_char(body@, '/') >= 0 && (match
                    spec_parse(
                    body@.subrange(find_char(body@, '/') + 1, body@.len() as int),
                ) {
                    None => true,
                    Some(m) => !fits_u64(m),
                }))
            },
        },
{
    let ver = match Version::try_from(body) {
        Ok(v) => v,
        Err(e) => {
            return Err(e);
        },
    };
    match crate::semver::parse_version(ver.version.as_str()) {
        Ok(sv) => Ok((ver, sv)),
        Err(e) => Err(e),
    }
}

// ---------------------------------------------------------------------------
// The per-package installation state machine
// ---------------------------------------------------------------------------

/// The states one package install passes through.
#[derive(Clone, Copy, PartialEq, Eq, Structural, Debug)]
pub enum InstallState {
    Pending,
    Resolving,
    Downloading,
    Extracting,
    Installed,
    /// Not found or unreachable during resolution or download; terminal.
    Unavailable,
    /// Unrecoverable failure during extraction; terminal.
    Failed,
}

/// The events the driver reports back to the state machine.
#[derive(Clone, Copy, PartialEq, Eq, Structural, Debug)]
pub enum InstallEvent {
    /// Resolution of the branch's latest version begins.
    StartResolve,
    /// The caller supplied an exact version: no resolution is needed.
    StartExact,
    /// The latest pointer resolved to a version.
    Resolved,
    /// The latest pointer was missing, unreachable, or malformed.
    ResolveFailed,
    /// The archive stream opened with a success status.
    DownloadOpened,
    /// The archive request failed or returned a non-success status.
    DownloadFailed,
    /// Every entry was extracted.
    Extracted,
    /// Extraction failed irrecoverably.
    ExtractFailed,
}

/// The transition relation of one package install.  Terminal states
/// absorb every event; an event that does not apply leaves the state
/// unchanged.
pub open spec fn spec_install_step(s: InstallState, e: InstallEvent) -> InstallState {
    match (s, e) {
        (InstallState::Pending, InstallEvent::StartResolve) => InstallState::Resolving,
        (InstallState::Pending, InstallEvent::StartExact) => InstallState::Downloading,
        (InstallState::Resolving, InstallEvent::Resolved) => InstallState::Downloading,
        (InstallState::Resolving, InstallEvent::ResolveFailed) => InstallState::Unavailable,
        (InstallState::Downloading, InstallEvent::DownloadOpened) => InstallState::Extracting,
        (InstallState::Downloading, InstallEvent::DownloadFailed) => InstallState::Unavailable,
        (InstallState::Extracting, InstallEvent::Extracted) => InstallState::Installed,
        (InstallState::Extracting, InstallEvent::ExtractFailed) => InstallState::Failed,
        (_, _) => s,
    }
}

/// One step of the install state machine.
pub fn install_step(s: InstallState, e: InstallEvent) -> (r: InstallState)
    ensures
        r == spec_install_step(s, e),
{
    match (s, e) {
        (InstallState::Pending, InstallEvent::StartResolve) => InstallState::Resolving,
        (InstallState::Pending, InstallEvent::StartExact) => InstallState::Downloading,
        (InstallState::Resolving, InstallEvent::Resolved) => InstallState::Downloading,
        (InstallState::Resolving, InstallEvent::ResolveFailed) => InstallState::Unavailable,
        (InstallState::Downloading, InstallEvent::DownloadOpened) => InstallState::Extracting,
        (InstallState::Downloading, InstallEvent::DownloadFailed) => InstallState::Unavailable,
        (InstallState::Extracting, InstallEvent::Extracted) => InstallState::Installed,
        (InstallState::Extracting, InstallEvent::ExtractFailed) => InstallState::Failed,
        (_, _) => s,
    }
}

/// Law: `Unavailable` is reached only from resolution or download, never
/// from extraction.
pub proof fn lemma_unavailable_only_before_extraction(s: InstallState, e: InstallEvent)
    requires
        spec_install_step(s, e) == InstallState::Unavailable,
        s != InstallState::Unavailable,
    ensures
        s == InstallState::Resolving || s == InstallState::Downloading,
{
}

/// Law: `Failed` is reached only from extraction.
pub proof fn lemma_failed_only_from_extraction(s: InstallState, e: InstallEvent)
    requires
        spec_install_step(s, e) == InstallState::Failed,
        s != InstallState::Failed,
    ensures
        s == InstallState::Extracting,
{
}

/// Whether a package's terminal state aborts the whole request: only the
/// primary package's failure does; an auxiliary package's failure is
/// reported and swallowed.
pub fn outcome_fatal(s: InstallState, primary: bool) -> (r: bool)
    ensures
        r == (primary && (s == InstallState::Unavailable || s == InstallState::Failed)),
{
    primary && (s == InstallState::Unavailable || s == InstallState::Failed)
}

/// Whether a combined install succeeded: exactly when the primary
/// package installed, whatever became of the auxiliary packages.
pub fn overall_success(primary: InstallState, auxiliaries: &Vec<InstallState>) -> (r: bool)
    ensures
        r == (primary == InstallState::Installed),
{
    primary == InstallState::Installed
}

} // verus!
