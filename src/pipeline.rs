//! The acquisition pipeline: one request goes from the cache, to a mirror,
//! through the security check, to installation and a fresh cache record.
//! The caller performs each action that the pipeline hands out (checking a
//! file, fetching, installing) and reports what came of it.
use vstd::prelude::*;
use vstd::string::StringExecFns;
use crate::cache::{after_lookup, artifact_path_of, lookup_result, stored, PackageCache};
use crate::mirrors::{default_of, named, MirrorManager};
use crate::models::{
    copy_strings, strings_view, CachedPackage, CachedPackageView, Mirror, MirrorView, PackageMetadata,
    PackageMetadataView, SecurityVulnerabilityView,
};
use crate::security::{any_reaches, scan_result, Severity, SecurityScanner};
use crate::text::str_eq;

verus! {

/// Where a request ends.
#[derive(Clone, Copy, Debug, PartialEq, Eq, Structural)]
pub enum Outcome {
    ServedFromCache,
    Installed,
    NoMirrorAvailable,
    FetchFailed,
    BlockedBySecurity,
    InstallFailed,
}

pub open spec fn is_success(o: Outcome) -> bool {
    o == Outcome::ServedFromCache || o == Outcome::Installed
}

impl Outcome {
    /// Whether the package is available at the end of the request.
    pub fn is_success(&self) -> (r: bool)
        ensures
            r == is_success(*self),
    {
        match self {
            Outcome::ServedFromCache => true,
            Outcome::Installed => true,
            _ => false,
        }
    }
}

/// A request for one package. `version` is `latest` when unpinned;
/// `mirror` names a mirror to prefer over the default; advisories whose
/// severity reaches `threshold` block the install unless `skip_security`.
pub struct PackageRequest {
    pub name: String,
    pub version: String,
    pub mirror: Option<String>,
    pub skip_security: bool,
    pub threshold: Severity,
}

/// What a mirror reports of a package.
pub struct FetchedPackage {
    pub version: String,
    pub summary: String,
    pub home_page: String,
    pub requires_dist: Vec<String>,
    pub download_url: String,
    pub hash: String,
}

/// How far a request has come.
#[derive(Clone, Copy, Debug, PartialEq, Eq, Structural)]
pub enum Stage {
    Start,
    AwaitArtifact,
    AwaitFetch,
    AwaitInstall,
    Done,
}

/// What the caller does next.
pub enum PipelineAction {
    /// Tell whether the file at `path` exists (`on_artifact`).
    CheckArtifact { path: String },
    /// Fetch the package's metadata from `mirror` (`on_fetched`).
    Fetch { mirror: Mirror },
    /// Install `spec` into the target environment (`on_installed`).
    Install { spec: String },
    /// The request is over.
    Finish { outcome: Outcome },
}

/// The action is a fetch from mirror `m`.
pub open spec fn fetches_from(a: PipelineAction, m: MirrorView) -> bool {
    match a {
        PipelineAction::Fetch { mirror } => mirror@ == m,
        _ => false,
    }
}

/// The action asks whether the file at `path` exists.
pub open spec fn checks_artifact(a: PipelineAction, path: Seq<char>) -> bool {
    match a {
        PipelineAction::CheckArtifact { path: p } => p@ == path,
        _ => false,
    }
}

/// The action asks for the install of `spec`.
pub open spec fn installs(a: PipelineAction, spec: Seq<char>) -> bool {
    match a {
        PipelineAction::Install { spec: q } => q@ == spec,
        _ => false,
    }
}

/// The mirror to fetch from: the requested one when it is configured,
/// else the default mirror if it is active.
pub open spec fn selected_mirror(s: Seq<MirrorView>, requested: Option<String>) -> Option<MirrorView> {
    match requested {
        Some(n) => if named(s, n@) is Some {
            named(s, n@)
        } else {
            default_of(s)
        },
        None => default_of(s),
    }
}

/// What the installer is asked for: the bare name when unpinned, else
/// `name==version`.
pub open spec fn install_spec_of(name: Seq<char>, version: Seq<char>) -> Seq<char> {
    if version == "latest"@ {
        name
    } else {
        name + "=="@ + version
    }
}

/// The record written after a successful install, keyed by the request.
pub open spec fn record_of(req: PackageRequest, f: FetchedPackage, dir: Seq<char>, at: i64) -> CachedPackageView {
    CachedPackageView {
        name: req.name@,
        version: req.version@,
        hash: f.hash@,
        download_url: f.download_url@,
        cached_at: at,
        file_path: artifact_path_of(dir, req.name@, req.version@),
        metadata: PackageMetadataView {
            description: f.summary@,
            author: Seq::empty(),
            license: Seq::empty(),
            dependencies: strings_view(f.requires_dist@),
            keywords: Seq::empty(),
            home_page: f.home_page@,
        },
    }
}

/// Whether the security check stops the install of `name` at `version`.
pub open spec fn security_blocks(req: PackageRequest, db: Seq<SecurityVulnerabilityView>, version: Seq<char>) -> bool {
    !req.skip_security && any_reaches(scan_result(db, req.name@, version), req.threshold)
}

/// Picks the mirror to fetch from.
pub fn select_mirror(mirrors: &MirrorManager, requested: &Option<String>) -> (r: Option<Mirror>)
    ensures
        match r {
            Some(m) => selected_mirror(mirrors@, *requested) == Some(m@),
            None => selected_mirror(mirrors@, *requested) is None,
        },
{
    match requested {
        Some(n) => {
            match mirrors.find_mirror(n.as_str()) {
                Some(m) => {
                    return Some(m.copy());
                },
                None => {},
            }
        },
        None => {},
    }
    match mirrors.get_default_mirror() {
        Some(m) => Some(m.copy()),
        None => None,
    }
}

/// Writes the installer's argument for a request.
pub fn install_spec(name: &str, version: &str) -> (r: String)
    ensures
        r@ == install_spec_of(name@, version@),
{
    let mut s = String::from_str(name);
    if !str_eq(version, "latest") {
        s.append("==");
        s.append(version);
    }
    s
}

/// One request going through the pipeline.
pub struct Acquisition {
    pub request: PackageRequest,
    pub stage: Stage,
    /// The package fetched for this request, once it has been.
    pub fetched: Option<FetchedPackage>,
}

impl Acquisition {
    /// A request that has not started.
    pub fn new(request: PackageRequest) -> (r: Self)
        ensures
            r.request == request,
            r.stage == Stage::Start,
            r.fetched is None,
    {
        Acquisition { request, stage: Stage::Start, fetched: None }
    }

    fn to_mirror(&mut self, mirrors: &MirrorManager) -> (r: PipelineAction)
        ensures
            final(self).request == old(self).request,
            final(self).fetched == old(self).fetched,
            match selected_mirror(mirrors@, old(self).request.mirror) {
                Some(m) => final(self).stage == Stage::AwaitFetch && fetches_from(r, m),
                None => final(self).stage == Stage::Done && r == (PipelineAction::Finish { outcome: Outcome::NoMirrorAvailable }),
            },
    {
        match select_mirror(mirrors, &self.request.mirror) {
            Some(m) => {
                self.stage = Stage::AwaitFetch;
                PipelineAction::Fetch { mirror: m }
            },
            None => {
                self.stage = Stage::Done;
                PipelineAction::Finish { outcome: Outcome::NoMirrorAvailable }
            },
        }
    }

    /// Starts the request: a record in the cache is checked for its
    /// artifact; without one, the mirror is chosen.
    pub fn start(&mut self, cache: &PackageCache, mirrors: &MirrorManager) -> (r: PipelineAction)
        requires
            old(self).stage == Stage::Start,
            cache.wf(),
        ensures
            final(self).request == old(self).request,
            final(self).fetched == old(self).fetched,
            cache@.contains_key((old(self).request.name@, old(self).request.version@)) ==> final(self).stage
                == Stage::AwaitArtifact && checks_artifact(r, cache@[(old(self).request.name@, old(self).request.version@)].file_path),
            !cache@.contains_key((old(self).request.name@, old(self).request.version@)) ==> match selected_mirror(
                mirrors@,
                old(self).request.mirror,
            ) {
                Some(m) => final(self).stage == Stage::AwaitFetch && fetches_from(r, m),
                None => final(self).stage == Stage::Done && r == (PipelineAction::Finish { outcome: Outcome::NoMirrorAvailable }),
            },
    {
        match cache.find_package(self.request.name.as_str(), self.request.version.as_str()) {
            Some(row) => {
                self.stage = Stage::AwaitArtifact;
                PipelineAction::CheckArtifact { path: row.file_path }
            },
            None => self.to_mirror(mirrors),
        }
    }

    /// Continues once the caller knows whether the cached artifact exists:
    /// served from the cache if so; otherwise the stale record is purged and
    /// the mirror is chosen.
    pub fn on_artifact(&mut self, present: bool, cache: &mut PackageCache, mirrors: &MirrorManager) -> (r: PipelineAction)
        requires
            old(self).stage == Stage::AwaitArtifact,
            old(cache).wf(),
        ensures
            final(self).request == old(self).request,
            final(self).fetched == old(self).fetched,
            final(cache).wf(),
            final(cache).dir() == old(cache).dir(),
            final(cache)@ == after_lookup(old(cache)@, (old(self).request.name@, old(self).request.version@), present),
            lookup_result(old(cache)@, (old(self).request.name@, old(self).request.version@), present) is Some
                ==> final(self).stage == Stage::Done && r == (PipelineAction::Finish { outcome: Outcome::ServedFromCache }),
            lookup_result(old(cache)@, (old(self).request.name@, old(self).request.version@), present) is None
                ==> match selected_mirror(mirrors@, old(self).request.mirror) {
                Some(m) => final(self).stage == Stage::AwaitFetch && fetches_from(r, m),
                None => final(self).stage == Stage::Done && r == (PipelineAction::Finish { outcome: Outcome::NoMirrorAvailable }),
            },
    {
        match cache.get_package(self.request.name.as_str(), self.request.version.as_str(), present) {
            Some(_) => {
                self.stage = Stage::Done;
                PipelineAction::Finish { outcome: Outcome::ServedFromCache }
            },
            None => self.to_mirror(mirrors),
        }
    }

    /// Continues with what the mirror gave (`None`: the fetch failed): the
    /// security check runs on the fetched version unless the request skips it, then
    /// the install is asked for.
    pub fn on_fetched(&mut self, fetched: Option<FetchedPackage>, index: &SecurityScanner) -> (r: PipelineAction)
        requires
            old(self).stage == Stage::AwaitFetch,
        ensures
            final(self).request == old(self).request,
            match fetched {
                None => final(self).stage == Stage::Done && r == (PipelineAction::Finish { outcome: Outcome::FetchFailed }),
                Some(f) => if security_blocks(old(self).request, index@, f.version@) {
                    final(self).stage == Stage::Done && r == (PipelineAction::Finish { outcome: Outcome::BlockedBySecurity })
                } else {
                    &&& final(self).stage == Stage::AwaitInstall
                    &&& final(self).fetched == Some(f)
                    &&& installs(r, install_spec_of(old(self).request.name@, old(self).request.version@))
                },
            },
    {
        match fetched {
            None => {
                self.stage = Stage::Done;
                PipelineAction::Finish { outcome: Outcome::FetchFailed }
            },
            Some(f) => {
                let blocked = !self.request.skip_security && index.is_blocked(
                    self.request.name.as_str(),
                    f.version.as_str(),
                    self.request.threshold,
                );
                if blocked {
                    self.stage = Stage::Done;
                    PipelineAction::Finish { outcome: Outcome::BlockedBySecurity }
                } else {
                    let spec = install_spec(self.request.name.as_str(), self.request.version.as_str());
                    self.fetched = Some(f);
                    self.stage = Stage::AwaitInstall;
                    PipelineAction::Install { spec }
                }
            },
        }
    }

    /// Ends the request with the installer's result; a successful install
    /// writes a fresh record (cached at `now`) under the request's key, a
    /// failed one writes nothing.
    pub fn on_installed(&mut self, ok: bool, now: i64, cache: &mut PackageCache) -> (r: PipelineAction)
        requires
            old(self).stage == Stage::AwaitInstall,
            old(self).fetched is Some,
            old(cache).wf(),
        ensures
            final(self).request == old(self).request,
            final(self).stage == Stage::Done,
            final(cache).wf(),
            final(cache).dir() == old(cache).dir(),
            ok ==> r == (PipelineAction::Finish { outcome: Outcome::Installed }) && final(cache)@ == stored(
                old(cache)@,
                record_of(old(self).request, old(self).fetched->0, old(cache).dir(), now),
            ),
            !ok ==> r == (PipelineAction::Finish { outcome: Outcome::InstallFailed }) && final(cache)@ == old(cache)@,
    {
        self.stage = Stage::Done;
        if !ok {
            return PipelineAction::Finish { outcome: Outcome::InstallFailed };
        }
        let f = match &self.fetched {
            Some(f) => f,
            None => {
                return PipelineAction::Finish { outcome: Outcome::InstallFailed };
            },
        };
        let record = CachedPackage {
            name: self.request.name.clone(),
            version: self.request.version.clone(),
            hash: f.hash.clone(),
            download_url: f.download_url.clone(),
            cached_at: now,
            file_path: cache.artifact_path(self.request.name.as_str(), self.request.version.as_str()),
            metadata: PackageMetadata {
                description: f.summary.clone(),
                author: String::new(),
                license: String::new(),
                dependencies: copy_strings(&f.requires_dist),
                keywords: Vec::new(),
                home_page: f.home_page.clone(),
            },
        };
        proof {
            assert(record.metadata@.keywords =~= Seq::<Seq<char>>::empty());
        }
        cache.store_package(record);
        PipelineAction::Finish { outcome: Outcome::Installed }
    }
}

/// Whether every request of a batch succeeded.
pub open spec fn all_succeeded(outcomes: Seq<Outcome>) -> bool {
    forall|i: int| 0 <= i < outcomes.len() ==> is_success(#[trigger] outcomes[i])
}

/// The result of a batch: success only when every member succeeded.
pub fn batch_succeeded(outcomes: &Vec<Outcome>) -> (r: bool)
    ensures
        r == all_succeeded(outcomes@),
{
    let mut i: usize = 0;
    while i < outcomes.len()
        invariant
            0 <= i <= outcomes@.len(),
            forall|k: int| 0 <= k < i ==> is_success(#[trigger] outcomes@[k]),
        decreases outcomes@.len() - i,
    {
        if !outcomes[i].is_success() {
            return false;
        }
        i = i + 1;
    }
    true
}

/// The positions of the members of a batch that failed, in order.
pub fn failed_members(outcomes: &Vec<Outcome>) -> (r: Vec<usize>)
    ensures
        forall|k: int| 0 <= k < r@.len() ==> #[trigger] r@[k] < outcomes@.len() && !is_success(outcomes@[r@[k] as int]),
        forall|i: int| 0 <= i < outcomes@.len() && !is_success(#[trigger] outcomes@[i]) ==> r@.contains(i as usize),
        forall|a: int, b: int| 0 <= a < b < r@.len() ==> r@[a] < r@[b],
{
    let mut out: Vec<usize> = Vec::new();
    let mut i: usize = 0;
    while i < outcomes.len()
        invariant
            0 <= i <= outcomes@.len(),
            forall|k: int| 0 <= k < out@.len() ==> #[trigger] out@[k] < i && !is_success(outcomes@[out@[k] as int]),
            forall|j: int| 0 <= j < i && !is_success(#[trigger] outcomes@[j]) ==> out@.contains(j as usize),
            forall|a: int, b: int| 0 <= a < b < out@.len() ==> out@[a] < out@[b],
        decreases outcomes@.len() - i,
    {
        let ghost old_out = out@;
        if !outcomes[i].is_success() {
            out.push(i);
            assert(out@[out@.len() - 1] == i);
        }
        proof {
            assert forall|j: int| 0 <= j < i + 1 && !is_success(#[trigger] outcomes@[j]) implies out@.contains(
                j as usize,
            ) by {
                if j < i {
                    let w = choose|w: int| 0 <= w < old_out.len() && old_out[w] == j as usize;
                    assert(out@[w] == j as usize);
                } else {
                    assert(out@[out@.len() - 1] == j as usize);
                }
            }
        }
        i = i + 1;
    }
    out
}

} // verus!
