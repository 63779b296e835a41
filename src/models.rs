//! Records of the cache, the mirror registry and the vulnerability index,
//! and the command vocabulary of the command-line front end.
use vstd::prelude::*;

verus! {

/// The characters of each string of a sequence.
pub open spec fn strings_view(v: Seq<String>) -> Seq<Seq<char>> {
    v.map_values(|s: String| s@)
}

/// Copies a list of strings.
pub fn copy_strings(v: &Vec<String>) -> (r: Vec<String>)
    ensures
        r@ == v@,
{
    let mut out: Vec<String> = Vec::new();
    let mut i: usize = 0;
    while i < v.len()
        invariant
            0 <= i <= v@.len(),
            out@ == v@.subrange(0, i as int),
        decreases v@.len() - i,
    {
        out.push(v[i].clone());
        i = i + 1;
        assert(out@ =~= v@.subrange(0, i as int));
    }
    assert(out@ =~= v@);
    out
}

/// Descriptive metadata of a package.
#[derive(Clone, Debug, Default, PartialEq, Eq)]
pub struct PackageMetadata {
    pub description: String,
    pub author: String,
    pub license: String,
    pub dependencies: Vec<String>,
    pub keywords: Vec<String>,
    pub home_page: String,
}

pub struct PackageMetadataView {
    pub description: Seq<char>,
    pub author: Seq<char>,
    pub license: Seq<char>,
    pub dependencies: Seq<Seq<char>>,
    pub keywords: Seq<Seq<char>>,
    pub home_page: Seq<char>,
}

impl View for PackageMetadata {
    type V = PackageMetadataView;

    open spec fn view(&self) -> PackageMetadataView {
        PackageMetadataView {
            description: self.description@,
            author: self.author@,
            license: self.license@,
            dependencies: strings_view(self.dependencies@),
            keywords: strings_view(self.keywords@),
            home_page: self.home_page@,
        }
    }
}

impl PackageMetadata {
    /// A field-for-field copy.
    pub fn copy(&self) -> (r: Self)
        ensures
            r@ == self@,
    {
        PackageMetadata {
            description: self.description.clone(),
            author: self.author.clone(),
            license: self.license.clone(),
            dependencies: copy_strings(&self.dependencies),
            keywords: copy_strings(&self.keywords),
            home_page: self.home_page.clone(),
        }
    }
}

/// One row of the cache: the artifact of `(name, version)` and its metadata.
/// `cached_at` counts seconds since the Unix epoch.
#[derive(Clone, Debug, PartialEq, Eq)]
pub struct CachedPackage {
    pub name: String,
    pub version: String,
    pub hash: String,
    pub download_url: String,
    pub cached_at: i64,
    pub file_path: String,
    pub metadata: PackageMetadata,
}

pub struct CachedPackageView {
    pub name: Seq<char>,
    pub version: Seq<char>,
    pub hash: Seq<char>,
    pub download_url: Seq<char>,
    pub cached_at: i64,
    pub file_path: Seq<char>,
    pub metadata: PackageMetadataView,
}

impl View for CachedPackage {
    type V = CachedPackageView;

    open spec fn view(&self) -> CachedPackageView {
        CachedPackageView {
            name: self.name@,
            version: self.version@,
            hash: self.hash@,
            download_url: self.download_url@,
            cached_at: self.cached_at,
            file_path: self.file_path@,
            metadata: self.metadata@,
        }
    }
}

impl CachedPackage {
    /// A field-for-field copy.
    pub fn copy(&self) -> (r: Self)
        ensures
            r@ == self@,
    {
        CachedPackage {
            name: self.name.clone(),
            version: self.version.clone(),
            hash: self.hash.clone(),
            download_url: self.download_url.clone(),
            cached_at: self.cached_at,
            file_path: self.file_path.clone(),
            metadata: self.metadata.copy(),
        }
    }
}

/// One advisory of the vulnerability index. `published_at` counts seconds
/// since the Unix epoch.
#[derive(Clone, Debug, PartialEq, Eq)]
pub struct SecurityVulnerability {
    pub id: String,
    pub package: String,
    pub version_range: String,
    pub severity: String,
    pub description: String,
    pub fixed_version: Option<String>,
    pub published_at: i64,
}

pub struct SecurityVulnerabilityView {
    pub id: Seq<char>,
    pub package: Seq<char>,
    pub version_range: Seq<char>,
    pub severity: Seq<char>,
    pub description: Seq<char>,
    pub fixed_version: Option<Seq<char>>,
    pub published_at: i64,
}

/// The characters of an optional string.
pub open spec fn opt_view(o: Option<String>) -> Option<Seq<char>> {
    match o {
        Some(s) => Some(s@),
        None => None,
    }
}

impl View for SecurityVulnerability {
    type V = SecurityVulnerabilityView;

    open spec fn view(&self) -> SecurityVulnerabilityView {
        SecurityVulnerabilityView {
            id: self.id@,
            package: self.package@,
            version_range: self.version_range@,
            severity: self.severity@,
            description: self.description@,
            fixed_version: opt_view(self.fixed_version),
            published_at: self.published_at,
        }
    }
}

impl SecurityVulnerability {
    /// A field-for-field copy.
    pub fn copy(&self) -> (r: Self)
        ensures
            r@ == self@,
    {
        let fixed_version = match &self.fixed_version {
            Some(s) => Some(s.clone()),
            None => None,
        };
        SecurityVulnerability {
            id: self.id.clone(),
            package: self.package.clone(),
            version_range: self.version_range.clone(),
            severity: self.severity.clone(),
            description: self.description.clone(),
            fixed_version,
            published_at: self.published_at,
        }
    }
}

/// A named download source. `last_tested` counts seconds since the Unix epoch.
#[derive(Clone, Debug, PartialEq, Eq)]
pub struct Mirror {
    pub name: String,
    pub url: String,
    pub is_default: bool,
    pub last_tested: Option<i64>,
    pub is_active: bool,
}

pub struct MirrorView {
    pub name: Seq<char>,
    pub url: Seq<char>,
    pub is_default: bool,
    pub last_tested: Option<i64>,
    pub is_active: bool,
}

impl View for Mirror {
    type V = MirrorView;

    open spec fn view(&self) -> MirrorView {
        MirrorView {
            name: self.name@,
            url: self.url@,
            is_default: self.is_default,
            last_tested: self.last_tested,
            is_active: self.is_active,
        }
    }
}

impl Mirror {
    /// A field-for-field copy.
    pub fn copy(&self) -> (r: Self)
        ensures
            r@ == self@,
    {
        Mirror {
            name: self.name.clone(),
            url: self.url.clone(),
            is_default: self.is_default,
            last_tested: self.last_tested,
            is_active: self.is_active,
        }
    }
}

/// Settings of the package manager as a whole.
#[derive(Clone, Debug)]
pub struct SAConfig {
    pub mirrors: Vec<Mirror>,
    pub cache_dir: String,
    pub security_enabled: bool,
    pub docker_enabled: bool,
    pub default_python_version: String,
}

/// A parsed command line.
#[derive(Clone, Debug)]
pub struct Cli {
    pub command: Commands,
}

/// The sub-commands of the command-line front end.
#[derive(Clone, Debug)]
pub enum Commands {
    Run { with: String, script: Vec<String>, docker: bool, docker_image: String },
    Install { package: String },
    Add { package: Vec<String>, skip_security: bool, mirror: Option<String>, refresh_cache: bool },
    Remove { package: String, clean_cache: bool },
    Uninstall { package: String },
    List { tree: bool, format: String },
    Build { docker: bool },
    Publish,
    Version,
    Cache { action: CacheAction },
    Security { action: SecurityAction },
    Mirror { action: MirrorAction },
    Visualize { package: String, format: String, output: Option<String>, transitive: bool },
    Docker { action: DockerAction },
}

#[derive(Clone, Debug)]
pub enum CacheAction {
    Clear,
    Stats,
    Verify,
    Optimize,
}

#[derive(Clone, Debug)]
pub enum SecurityAction {
    Scan { package: Option<String>, format: String },
    Update,
    Policy,
}

#[derive(Clone, Debug)]
pub enum MirrorAction {
    Add { name: String, url: String, default: bool },
    Remove { name: String },
    List,
    Test { name: Option<String> },
}

#[derive(Clone, Debug)]
pub enum DockerAction {
    Create { name: String, image: String, requirements: Option<String> },
    List,
    Remove { name: String },
    Exec { name: String, command: Vec<String> },
}

} // verus!
