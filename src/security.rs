//! The vulnerability index: advisories by package and version range,
//! replaced wholesale on refresh, and the severity check built on it.
use vstd::prelude::*;
use vstd::string::{StrSliceExecFns, StringExecFns};
use crate::models::{SecurityVulnerability, SecurityVulnerabilityView};
use crate::text::{has_prefix, lex_lt, str_eq, str_has_prefix, str_less};

verus! {

/// Whether the range expression `range` admits `version`. Versions compare
/// as strings: `*` admits everything, `>=X`, `<=X`, `<X` and `>X` compare
/// with `X` lexicographically, and anything else must equal the version.
pub open spec fn range_contains(range: Seq<char>, version: Seq<char>) -> bool {
    if range == seq!['*'] {
        true
    } else if has_prefix(range, seq!['>', '=']) {
        !lex_lt(version, range.skip(2))
    } else if has_prefix(range, seq!['<', '=']) {
        !lex_lt(range.skip(2), version)
    } else if has_prefix(range, seq!['<']) {
        lex_lt(version, range.skip(1))
    } else if has_prefix(range, seq!['>']) {
        lex_lt(range.skip(1), version)
    } else {
        version == range
    }
}

/// An advisory that concerns `package` at `version`.
pub open spec fn affects(v: SecurityVulnerabilityView, package: Seq<char>, version: Seq<char>) -> bool {
    v.package == package && range_contains(v.version_range, version)
}

/// Every advisory of `db` that concerns `package` at `version`, in index order.
pub open spec fn scan_result(db: Seq<SecurityVulnerabilityView>, package: Seq<char>, version: Seq<char>) -> Seq<
    SecurityVulnerabilityView,
> {
    db.filter(|v: SecurityVulnerabilityView| affects(v, package, version))
}

/// The index after a refresh whose fetch gave `fetched` (`None`: it failed).
pub open spec fn after_refresh(
    db: Seq<SecurityVulnerabilityView>,
    fetched: Option<Seq<SecurityVulnerabilityView>>,
) -> Seq<SecurityVulnerabilityView> {
    match fetched {
        Some(n) => n,
        None => db,
    }
}

pub open spec fn vulns_view(v: Seq<SecurityVulnerability>) -> Seq<SecurityVulnerabilityView> {
    v.map_values(|x: SecurityVulnerability| x@)
}

/// Decides `range_contains(range@, version@)`.
pub fn version_matches(version: &str, range: &str) -> (r: bool)
    ensures
        r == range_contains(range@, version@),
{
    proof {
        reveal_strlit("*");
        reveal_strlit(">=");
        reveal_strlit("<=");
        reveal_strlit("<");
        reveal_strlit(">");
        assert("*"@ =~= seq!['*']);
        assert(">="@ =~= seq!['>', '=']);
        assert("<="@ =~= seq!['<', '=']);
        assert("<"@ =~= seq!['<']);
        assert(">"@ =~= seq!['>']);
    }
    let n = range.unicode_len();
    if str_eq(range, "*") {
        true
    } else if str_has_prefix(range, ">=") {
        let rest = range.substring_char(2, n);
        !str_less(version, rest)
    } else if str_has_prefix(range, "<=") {
        let rest = range.substring_char(2, n);
        !str_less(rest, version)
    } else if str_has_prefix(range, "<") {
        let rest = range.substring_char(1, n);
        str_less(version, rest)
    } else if str_has_prefix(range, ">") {
        let rest = range.substring_char(1, n);
        str_less(rest, version)
    } else {
        str_eq(version, range)
    }
}

/// How grave an advisory is.
#[derive(Clone, Copy, Debug, PartialEq, Eq, Structural)]
pub enum Severity {
    Low,
    Medium,
    High,
    Critical,
}

pub open spec fn severity_rank(s: Severity) -> nat {
    match s {
        Severity::Low => 0,
        Severity::Medium => 1,
        Severity::High => 2,
        Severity::Critical => 3,
    }
}

/// The level that a severity text names: `low`, `medium`, `high` or
/// `critical`. Any other text counts as critical, so that an advisory of
/// unknown gravity is never waved through.
pub open spec fn severity_of(s: Seq<char>) -> Severity {
    if s == "low"@ {
        Severity::Low
    } else if s == "medium"@ {
        Severity::Medium
    } else if s == "high"@ {
        Severity::High
    } else {
        Severity::Critical
    }
}

impl Severity {
    /// The position of the level in `low < medium < high < critical`.
    pub fn rank(&self) -> (r: u8)
        ensures
            r == severity_rank(*self),
    {
        match self {
            Severity::Low => 0,
            Severity::Medium => 1,
            Severity::High => 2,
            Severity::Critical => 3,
        }
    }

    /// Reads a severity text.
    pub fn parse(s: &str) -> (r: Severity)
        ensures
            r == severity_of(s@),
    {
        if str_eq(s, "low") {
            Severity::Low
        } else if str_eq(s, "medium") {
            Severity::Medium
        } else if str_eq(s, "high") {
            Severity::High
        } else {
            Severity::Critical
        }
    }
}

/// An advisory whose severity reaches `threshold`.
pub open spec fn reaches(v: SecurityVulnerabilityView, threshold: Severity) -> bool {
    severity_rank(severity_of(v.severity)) >= severity_rank(threshold)
}

/// Whether some advisory of `found` reaches `threshold`.
pub open spec fn any_reaches(found: Seq<SecurityVulnerabilityView>, threshold: Severity) -> bool {
    exists|i: int| 0 <= i < found.len() && reaches(#[trigger] found[i], threshold)
}

/// One advisory as the upstream feed gives it; absent fields take defaults.
pub struct FeedEntry {
    pub id: Option<String>,
    pub first_spec: Option<String>,
    pub advisory: Option<String>,
}

/// The advisories that the upstream feed lists for one package.
pub struct FeedPackage {
    pub name: String,
    pub entries: Vec<FeedEntry>,
}

pub open spec fn or_default(o: Option<String>, d: Seq<char>) -> Seq<char> {
    match o {
        Some(s) => s@,
        None => d,
    }
}

/// The index record of one feed entry of `package`, published at `at`.
pub open spec fn advisory_of(package: Seq<char>, e: FeedEntry, at: i64) -> SecurityVulnerabilityView {
    SecurityVulnerabilityView {
        id: or_default(e.id, "unknown"@),
        package,
        version_range: or_default(e.first_spec, "*"@),
        severity: "medium"@,
        description: or_default(e.advisory, "No description available"@),
        fixed_version: None,
        published_at: at,
    }
}

pub open spec fn advisories_of(p: FeedPackage, at: i64) -> Seq<SecurityVulnerabilityView> {
    p.entries@.map_values(|e: FeedEntry| advisory_of(p.name@, e, at))
}

/// The index built from a whole feed: each package's advisories in turn.
pub open spec fn index_of_feed(feed: Seq<FeedPackage>, at: i64) -> Seq<SecurityVulnerabilityView>
    decreases feed.len(),
{
    if feed.len() == 0 {
        Seq::empty()
    } else {
        index_of_feed(feed.drop_last(), at) + advisories_of(feed.last(), at)
    }
}

fn text_or(o: &Option<String>, d: &str) -> (r: String)
    ensures
        r@ == or_default(*o, d@),
{
    match o {
        Some(s) => s.clone(),
        None => String::from_str(d),
    }
}

/// The index record of one feed entry.
pub fn advisory_from_feed(package: &String, e: &FeedEntry, published_at: i64) -> (r: SecurityVulnerability)
    ensures
        r@ == advisory_of(package@, *e, published_at),
{
    SecurityVulnerability {
        id: text_or(&e.id, "unknown"),
        package: package.clone(),
        version_range: text_or(&e.first_spec, "*"),
        severity: String::from_str("medium"),
        description: text_or(&e.advisory, "No description available"),
        fixed_version: None,
        published_at,
    }
}

/// Builds the index that a fetched feed stands for.
pub fn build_index(feed: &Vec<FeedPackage>, published_at: i64) -> (r: Vec<SecurityVulnerability>)
    ensures
        vulns_view(r@) == index_of_feed(feed@, published_at),
{
    let mut out: Vec<SecurityVulnerability> = Vec::new();
    let mut i: usize = 0;
    while i < feed.len()
        invariant
            0 <= i <= feed@.len(),
            vulns_view(out@) == index_of_feed(feed@.subrange(0, i as int), published_at),
        decreases feed@.len() - i,
    {
        let p = &feed[i];
        let ghost before = vulns_view(out@);
        let mut j: usize = 0;
        while j < p.entries.len()
            invariant
                0 <= j <= p.entries@.len(),
                vulns_view(out@) == before + advisories_of(*p, published_at).subrange(0, j as int),
            decreases p.entries@.len() - j,
        {
            let ghost prev = vulns_view(out@);
            out.push(advisory_from_feed(&p.name, &p.entries[j], published_at));
            proof {
                assert(advisories_of(*p, published_at)[j as int] == advisory_of(
                    p.name@,
                    p.entries@[j as int],
                    published_at,
                ));
                assert(vulns_view(out@) =~= prev.push(advisories_of(*p, published_at)[j as int]));
                assert(vulns_view(out@) =~= before + advisories_of(*p, published_at).subrange(0, j + 1));
            }
            j = j + 1;
        }
        proof {
            assert(advisories_of(*p, published_at).subrange(0, j as int) =~= advisories_of(*p, published_at));
            assert(feed@.subrange(0, i + 1).drop_last() =~= feed@.subrange(0, i as int));
        }
        i = i + 1;
    }
    assert(feed@.subrange(0, feed@.len() as int) =~= feed@);
    out
}

/// The advisory list, persisted at `db_path`.
pub struct SecurityScanner {
    pub vulnerability_db: Vec<SecurityVulnerability>,
    pub db_path: String,
}

impl View for SecurityScanner {
    type V = Seq<SecurityVulnerabilityView>;

    open spec fn view(&self) -> Seq<SecurityVulnerabilityView> {
        vulns_view(self.vulnerability_db@)
    }
}

impl SecurityScanner {
    /// An index holding the advisories read from `db_path`, or none when
    /// none could be read.
    pub fn new(db_path: String, loaded: Option<Vec<SecurityVulnerability>>) -> (r: Self)
        ensures
            r.db_path@ == db_path@,
            r@ == match loaded {
                Some(v) => vulns_view(v@),
                None => Seq::empty(),
            },
    {
        let vulnerability_db = match loaded {
            Some(v) => v,
            None => Vec::new(),
        };
        let r = SecurityScanner { vulnerability_db, db_path };
        proof {
            if loaded is None {
                assert(r@ =~= Seq::empty());
            }
        }
        r
    }

    /// Completes a refresh: a fetched list (fully built beforehand) replaces
    /// the whole index; after a failed fetch (`None`) the index is kept as
    /// it was. Returns whether the index was replaced.
    pub fn apply_update(&mut self, fetched: Option<Vec<SecurityVulnerability>>) -> (r: bool)
        ensures
            final(self).db_path == old(self).db_path,
            final(self)@ == after_refresh(
                old(self)@,
                match fetched {
                    Some(v) => Some(vulns_view(v@)),
                    None => None,
                },
            ),
            r == fetched is Some,
    {
        match fetched {
            Some(v) => {
                self.vulnerability_db = v;
                true
            },
            None => false,
        }
    }

    /// Whether `version` falls in `range`.
    pub fn version_matches(&self, version: &str, range: &str) -> (r: bool)
        ensures
            r == range_contains(range@, version@),
    {
        version_matches(version, range)
    }

    /// Every advisory of the index that concerns `package_name` at `version`.
    pub fn scan_package(&self, package_name: &str, version: &str) -> (r: Vec<SecurityVulnerability>)
        ensures
            vulns_view(r@) == scan_result(self@, package_name@, version@),
    {
        let ghost all = self@;
        let mut out: Vec<SecurityVulnerability> = Vec::new();
        let mut i: usize = 0;
        while i < self.vulnerability_db.len()
            invariant
                0 <= i <= self.vulnerability_db@.len(),
                all == self@,
                vulns_view(out@) == scan_result(all.subrange(0, i as int), package_name@, version@),
            decreases self.vulnerability_db@.len() - i,
        {
            proof {
                reveal(Seq::filter);
                assert(all.subrange(0, i + 1).drop_last() =~= all.subrange(0, i as int));
                assert(all.subrange(0, i + 1).last() == all[i as int]);
            }
            let v = &self.vulnerability_db[i];
            if str_eq(v.package.as_str(), package_name) && version_matches(version, v.version_range.as_str()) {
                out.push(v.copy());
                proof {
                    assert(vulns_view(out@) =~= scan_result(all.subrange(0, i as int), package_name@, version@).push(
                        all[i as int],
                    ));
                }
            }
            i = i + 1;
        }
        assert(all.subrange(0, all.len() as int) =~= all);
        out
    }

    /// Whether installing `package_name` at `version` is blocked: some
    /// advisory concerning it reaches `threshold`.
    pub fn is_blocked(&self, package_name: &str, version: &str, threshold: Severity) -> (r: bool)
        ensures
            r == any_reaches(scan_result(self@, package_name@, version@), threshold),
    {
        let found = self.scan_package(package_name, version);
        let ghost fv = vulns_view(found@);
        let t = threshold.rank();
        let mut i: usize = 0;
        while i < found.len()
            invariant
                0 <= i <= found@.len(),
                fv == vulns_view(found@),
                fv == scan_result(self@, package_name@, version@),
                t == severity_rank(threshold),
                forall|k: int| 0 <= k < i ==> !reaches(#[trigger] fv[k], threshold),
            decreases found@.len() - i,
        {
            if Severity::parse(found[i].severity.as_str()).rank() >= t {
                assert(fv[i as int] == found@[i as int]@);
                assert(reaches(fv[i as int], threshold));
                return true;
            }
            i = i + 1;
        }
        false
    }
}

/// A refresh whose fetch fails leaves every scan result as it was.
pub proof fn lemma_failed_refresh_keeps_scan(
    db: Seq<SecurityVulnerabilityView>,
    package: Seq<char>,
    version: Seq<char>,
)
    ensures
        after_refresh(db, None) == db,
        scan_result(after_refresh(db, None), package, version) == scan_result(db, package, version),
{
}

/// A refresh whose fetch succeeds makes every scan answer from the fetched
/// list alone.
pub proof fn lemma_refresh_replaces_index(
    db: Seq<SecurityVulnerabilityView>,
    fetched: Seq<SecurityVulnerabilityView>,
    package: Seq<char>,
    version: Seq<char>,
)
    ensures
        scan_result(after_refresh(db, Some(fetched)), package, version) == scan_result(fetched, package, version),
{
}

} // verus!
