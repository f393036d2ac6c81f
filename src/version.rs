//! Semantic versions, version requirements and the registry of supported API
//! versions with their feature flags.
use vstd::prelude::*;

verus! {

/// A release version `major.minor.patch`.
#[derive(Clone, Copy, Debug, PartialEq, Eq, Structural, Hash)]
pub struct SemVer {
    pub major: u64,
    pub minor: u64,
    pub patch: u64,
}

impl SemVer {
    /// Lexicographic order on `(major, minor, patch)`.
    pub open spec fn spec_le(self, other: SemVer) -> bool {
        self.major < other.major || (self.major == other.major && (self.minor < other.minor || (
        self.minor == other.minor && self.patch <= other.patch)))
    }

    pub fn new(major: u64, minor: u64, patch: u64) -> (r: SemVer)
        ensures
            r == (SemVer { major, minor, patch }),
    {
        SemVer { major, minor, patch }
    }

    /// Whether `self` is at most `other`.
    pub fn le(&self, other: &SemVer) -> (r: bool)
        ensures
            r == self.spec_le(*other),
    {
        self.major < other.major || (self.major == other.major && (self.minor < other.minor || (
        self.minor == other.minor && self.patch <= other.patch)))
    }
}

/// Comparison operator of one comparator of a version requirement.
#[derive(Clone, Copy, Debug, PartialEq, Eq, Structural)]
pub enum Op {
    Exact,
    Greater,
    GreaterEq,
    Less,
    LessEq,
    Tilde,
    Caret,
    Wildcard,
}

/// One comparator, such as `>=1.1` or `^1.0.0`; a missing minor or patch
/// number is a wildcard.
#[derive(Clone, Copy, Debug, PartialEq, Eq, Structural)]
pub struct Comparator {
    pub op: Op,
    pub major: u64,
    pub minor: Option<u64>,
    pub patch: Option<u64>,
}

/// A version requirement: a version satisfies it when it satisfies every
/// comparator. With no comparator it is `*`.
#[derive(Clone, Debug)]
pub struct VersionReq {
    pub comparators: Vec<Comparator>,
}

impl VersionReq {
    /// The requirement `*`, met by every release version.
    pub fn star() -> (r: VersionReq)
        ensures
            r.comparators@.len() == 0,
    {
        VersionReq { comparators: Vec::new() }
    }
}

/// Whether a release version satisfies the requirement made of the given
/// comparators, as semver decides it.
pub uninterp spec fn semver_matches(comparators: Seq<Comparator>, version: SemVer) -> bool;

/// Relies on semver::VersionReq::matches, on a requirement built field for
/// field from `req` (no pre-release part) and the release version `v`. The
/// crate's source checks every comparator and, for a version without
/// pre-release, accepts when all of them hold: so `*` accepts every release.
#[verifier::external_body]
fn matches_requirement(req: &VersionReq, v: SemVer) -> (r: bool)
    ensures
        r == semver_matches(req.comparators@, v),
        req.comparators@.len() == 0 ==> r,
{
    let comparators = req.comparators.iter().map(|c| semver::Comparator {
        op: match c.op {
            Op::Exact => semver::Op::Exact,
            Op::Greater => semver::Op::Greater,
            Op::GreaterEq => semver::Op::GreaterEq,
            Op::Less => semver::Op::Less,
            Op::LessEq => semver::Op::LessEq,
            Op::Tilde => semver::Op::Tilde,
            Op::Caret => semver::Op::Caret,
            Op::Wildcard => semver::Op::Wildcard,
        },
        major: c.major, minor: c.minor, patch: c.patch, pre: semver::Prerelease::EMPTY,
    }).collect();
    semver::VersionReq { comparators }.matches(&semver::Version::new(v.major, v.minor, v.patch))
}

/// Optional behaviours that an API version may enable.
#[derive(Clone, Copy, Debug, PartialEq, Eq, Structural, Hash)]
pub enum FeatureFlag {
    BasicOrdering,
}

/// The supported API versions with their feature flags, lowest version first.
pub open spec fn registry() -> Seq<(SemVer, Seq<FeatureFlag>)> {
    seq![
        (SemVer { major: 1, minor: 0, patch: 0 }, Seq::<FeatureFlag>::empty()),
        (SemVer { major: 1, minor: 1, patch: 0 }, seq![FeatureFlag::BasicOrdering]),
    ]
}

/// Whether `v` is a version of the registry.
pub open spec fn is_registered(v: SemVer) -> bool {
    exists|i: int| 0 <= i < registry().len() && #[trigger] registry()[i].0 == v
}

/// The highest version among the first `n` entries of the registry that
/// satisfies the requirement.
pub open spec fn highest_match(req: Seq<Comparator>, n: nat) -> Option<SemVer>
    decreases n,
{
    if n == 0 {
        None
    } else if semver_matches(req, registry()[n - 1].0) {
        Some(registry()[n - 1].0)
    } else {
        highest_match(req, (n - 1) as nat)
    }
}

/// The version that a requirement resolves to: the highest registered
/// version that satisfies it.
pub open spec fn resolved(req: Seq<Comparator>) -> Option<SemVer> {
    highest_match(req, registry().len())
}

/// The feature flags that the registry gives to the entry at `i`.
pub open spec fn features_at(i: int) -> Seq<FeatureFlag> {
    registry()[i].1
}

/// Whether the registered version `v` enables the flag.
pub open spec fn registry_supports(v: SemVer, f: FeatureFlag) -> bool {
    exists|i: int| 0 <= i < registry().len() && #[trigger] registry()[i].0 == v && registry()[i].1.contains(f)
}

proof fn lemma_highest_match(req: Seq<Comparator>, n: nat)
    requires
        n <= registry().len(),
    ensures
        highest_match(req, n) is Some <==> exists|i: int| 0 <= i < n && semver_matches(req, #[trigger] registry()[i].0),
        highest_match(req, n) matches Some(v) ==> exists|i: int| 0 <= i < n && #[trigger] registry()[i].0 == v && semver_matches(req, v)
            && forall|j: int| i < j < n ==> !semver_matches(req, #[trigger] registry()[j].0),
    decreases n,
{
    if n > 0 {
        lemma_highest_match(req, (n - 1) as nat);
        if !semver_matches(req, registry()[n - 1].0) {
            if let Some(v) = highest_match(req, n) {
                let i = choose|i: int| 0 <= i < n - 1 && #[trigger] registry()[i].0 == v && semver_matches(req, v)
                    && forall|j: int| i < j < n - 1 ==> !semver_matches(req, #[trigger] registry()[j].0);
                assert forall|j: int| i < j < n implies !semver_matches(req, #[trigger] registry()[j].0) by {
                    if j < n - 1 {
                    }
                }
            }
        }
    }
}

/// A requirement resolves to some version exactly when at least one
/// registered version satisfies it; that version is registered, satisfies
/// the requirement, and is at least every registered version that does.
pub proof fn lemma_resolve_iff_some_match(req: Seq<Comparator>)
    ensures
        resolved(req) is Some <==> exists|i: int| 0 <= i < registry().len() && semver_matches(req, #[trigger] registry()[i].0),
        resolved(req) matches Some(v) ==> is_registered(v) && semver_matches(req, v)
            && forall|w: SemVer| is_registered(w) && semver_matches(req, w) ==> w.spec_le(v),
{
    lemma_highest_match(req, registry().len());
    if let Some(v) = resolved(req) {
        let i = choose|i: int| 0 <= i < registry().len() && #[trigger] registry()[i].0 == v && semver_matches(req, v)
            && forall|j: int| i < j < registry().len() ==> !semver_matches(req, #[trigger] registry()[j].0);
        assert forall|w: SemVer| is_registered(w) && semver_matches(req, w) implies w.spec_le(v) by {
            let j = choose|j: int| 0 <= j < registry().len() && #[trigger] registry()[j].0 == w;
            assert(j <= i);
        }
    }
}

/// A baseline flag (one that the lowest registered version enables) that a
/// registered version enables is enabled by every registered version below
/// it.
pub proof fn lemma_baseline_flag_kept_below(v1: SemVer, v2: SemVer, f: FeatureFlag)
    requires
        is_registered(v1),
        is_registered(v2),
        v1.spec_le(v2),
        registry_supports(v2, f),
        registry()[0].1.contains(f),
    ensures
        registry_supports(v1, f),
{
    assert(!registry()[0].1.contains(f));
}

/// Between registered versions, a higher version enables every flag that a
/// lower one enables.
pub proof fn lemma_flags_grow_with_version(v1: SemVer, v2: SemVer, f: FeatureFlag)
    requires
        is_registered(v1),
        is_registered(v2),
        v1.spec_le(v2),
        registry_supports(v1, f),
    ensures
        registry_supports(v2, f),
{
    let i = choose|i: int| 0 <= i < registry().len() && #[trigger] registry()[i].0 == v1 && registry()[i].1.contains(f);
    let j = choose|j: int| 0 <= j < registry().len() && #[trigger] registry()[j].0 == v2;
    assert(i == 1);
    assert(registry()[1].1[0] == f);
    assert(j == 1);
}

proof fn lemma_highest_match_picks(req: Seq<Comparator>, satisfied: Seq<bool>, n: nat)
    requires
        n <= registry().len(),
        satisfied.len() == registry().len(),
        forall|k: int| 0 <= k < satisfied.len() ==> #[trigger] satisfied[k] == semver_matches(req, registry()[k].0),
    ensures
        highest_match(req, n) == match highest_satisfied(satisfied, n) {
            Some(k) => Some(registry()[k as int].0),
            None => None::<SemVer>,
        },
    decreases n,
{
    if n > 0 {
        assert(satisfied[n - 1] == semver_matches(req, registry()[n - 1].0));
        lemma_highest_match_picks(req, satisfied, (n - 1) as nat);
    }
}

/// The highest position among the first `n` that holds `true`.
pub open spec fn highest_satisfied(satisfied: Seq<bool>, n: nat) -> Option<nat>
    decreases n,
{
    if n == 0 {
        None
    } else if satisfied[n - 1] {
        Some((n - 1) as nat)
    } else {
        highest_satisfied(satisfied, (n - 1) as nat)
    }
}

/// Given, for each registry entry in order, whether its version satisfies a
/// requirement: the position of the highest entry that does.
pub fn pick_highest(satisfied: &Vec<bool>) -> (r: Option<usize>)
    ensures
        match r {
            Some(k) => highest_satisfied(satisfied@, satisfied@.len()) == Some(k as nat),
            None => highest_satisfied(satisfied@, satisfied@.len()) is None,
        },
        match r {
            Some(k) => k < satisfied@.len() && satisfied@[k as int] && forall|j: int| k < j < satisfied@.len() ==> !#[trigger] satisfied@[j],
            None => forall|j: int| 0 <= j < satisfied@.len() ==> !#[trigger] satisfied@[j],
        },
{
    let mut n: usize = satisfied.len();
    while n > 0
        invariant
            n <= satisfied@.len(),
            highest_satisfied(satisfied@, satisfied@.len()) == highest_satisfied(satisfied@, n as nat),
            forall|j: int| n <= j < satisfied@.len() ==> !#[trigger] satisfied@[j],
        decreases n,
    {
        if satisfied[n - 1] {
            return Some(n - 1);
        }
        n = n - 1;
    }
    None
}

/// The executable registry table.
pub fn versions() -> (r: Vec<(SemVer, Vec<FeatureFlag>)>)
    ensures
        r@.len() == registry().len(),
        forall|i: int|
            0 <= i < r@.len() ==> (#[trigger] r@[i]).0 == registry()[i].0 && r@[i].1@
                == registry()[i].1,
{
    let mut r: Vec<(SemVer, Vec<FeatureFlag>)> = Vec::new();
    r.push((SemVer::new(1, 0, 0), Vec::new()));
    r.push((SemVer::new(1, 1, 0), vec![FeatureFlag::BasicOrdering]));
    proof {
        assert(r@[1].1@ =~= registry()[1].1);
    }
    r
}

/// An API version resolved from the registry, with its feature flags.
#[derive(Clone, Debug)]
pub struct ApiVersion {
    pub version: SemVer,
    features: Vec<FeatureFlag>,
}

impl ApiVersion {
    /// The flags that this version enables.
    pub closed spec fn feature_set(&self) -> Seq<FeatureFlag> {
        self.features@
    }

    /// The resolved version.
    pub closed spec fn spec_version(&self) -> SemVer {
        self.version
    }

    /// The resolved version.
    pub fn version(&self) -> (r: SemVer)
        ensures
            r == self.spec_version(),
    {
        self.version
    }

    /// Resolves the requirement to the highest registered version that
    /// satisfies it, with that version's flags.
    pub fn new(version_requirement: &VersionReq) -> (r: Result<ApiVersion, String>)
        ensures
            match r {
                Ok(a) => resolved(version_requirement.comparators@) == Some(a.spec_version()) && exists|
                    i: int,
                |
                    0 <= i < registry().len() && #[trigger] registry()[i].0 == a.spec_version()
                        && a.feature_set() == features_at(i),
                Err(e) => resolved(version_requirement.comparators@) is None && e@
                    == "No versions found"@,
            },
            version_requirement.comparators@.len() == 0 ==> (r matches Ok(a) && a.spec_version() == registry()[
                registry().len() - 1
            ].0 && a.feature_set() == features_at(registry().len() - 1)),
    {
        let version = match ApiVersion::resolve(version_requirement) {
            Some(v) => v,
            None => return Err("No versions found".to_string()),
        };
        let table = versions();
        let mut i: usize = 0;
        while i < table.len()
            invariant
                i <= table@.len(),
                table@.len() == registry().len(),
                forall|k: int|
                    0 <= k < table@.len() ==> (#[trigger] table@[k]).0 == registry()[k].0
                        && table@[k].1@ == registry()[k].1,
                is_registered(version),
                resolved(version_requirement.comparators@) == Some(version),
                version_requirement.comparators@.len() == 0 ==> version == registry()[registry().len() - 1].0,
                forall|k: int| 0 <= k < i ==> registry()[k].0 != version,
            decreases table@.len() - i,
        {
            if table[i].0 == version {
                let a = ApiVersion { version, features: table[i].1.clone() };
                proof {
                    assert(registry()[i as int].0 == a.version);
                }
                return Ok(a);
            }
            i = i + 1;
        }
        proof {
            let k = choose|k: int| 0 <= k < registry().len() && #[trigger] registry()[k].0 == version;
            assert(registry()[k].0 != version);
        }
        Err("No versions found".to_string())
    }

    /// The highest registered version that satisfies the requirement.
    pub fn resolve(version_requirement: &VersionReq) -> (r: Option<SemVer>)
        ensures
            r == resolved(version_requirement.comparators@),
            r matches Some(v) ==> is_registered(v),
            version_requirement.comparators@.len() == 0 ==> r == Some(registry()[registry().len() - 1].0),
    {
        let table = versions();
        let mut satisfied: Vec<bool> = Vec::new();
        let mut i: usize = 0;
        while i < table.len()
            invariant
                i <= table@.len(),
                table@.len() == registry().len(),
                forall|k: int|
                    0 <= k < table@.len() ==> (#[trigger] table@[k]).0 == registry()[k].0,
                satisfied@.len() == i,
                forall|k: int| 0 <= k < i ==> #[trigger] satisfied@[k] == semver_matches(version_requirement.comparators@, registry()[k].0),
                version_requirement.comparators@.len() == 0 ==> forall|k: int| 0 <= k < i ==> #[trigger] satisfied@[k],
            decreases table@.len() - i,
        {
            satisfied.push(matches_requirement(version_requirement, table[i].0));
            i = i + 1;
        }
        proof {
            lemma_highest_match_picks(version_requirement.comparators@, satisfied@, registry().len());
        }
        match pick_highest(&satisfied) {
            Some(k) => {
                proof {
                    assert(registry()[k as int].0 == table@[k as int].0);
                    if version_requirement.comparators@.len() == 0 {
                        assert(satisfied@[registry().len() - 1]);
                    }
                }
                Some(table[k].0)
            },
            None => {
                proof {
                    if version_requirement.comparators@.len() == 0 {
                        assert(satisfied@[0]);
                    }
                }
                None
            },
        }
    }

    /// Whether this version enables the flag.
    pub fn supports(&self, feature: FeatureFlag) -> (r: bool)
        ensures
            r == self.feature_set().contains(feature),
    {
        let mut i: usize = 0;
        while i < self.features.len()
            invariant
                i <= self.features@.len(),
                forall|k: int| 0 <= k < i ==> self.features@[k] != feature,
            decreases self.features@.len() - i,
        {
            if self.features[i] == feature {
                return true;
            }
            i = i + 1;
        }
        false
    }
}

impl Default for ApiVersion {
    /// The version that `*` resolves to: the highest registered version,
    /// 1.1.0, with its flags.
    fn default() -> (r: ApiVersion)
        ensures
            resolved(Seq::<Comparator>::empty()) == Some(r.spec_version()),
            r.spec_version() == (SemVer { major: 1, minor: 1, patch: 0 }),
            r.feature_set() == seq![FeatureFlag::BasicOrdering],
    {
        let req = VersionReq::star();
        match ApiVersion::new(&req) {
            Ok(a) => {
                proof {
                    assert(req.comparators@ =~= Seq::<Comparator>::empty());
                }
                a
            },
            Err(_) => unreached(),
        }
    }
}

} // verus!
