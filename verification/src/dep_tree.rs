use vstd::prelude::*;

use crate::errors::ServerError;
use crate::kvlist::kv_view;
use crate::kvlist::lemma_key_index;
use crate::kvlist::lemma_kv_view_index;
use crate::kvlist::map_get;
use crate::kvlist::map_put;
use crate::kvlist::spec_get;
use crate::kvlist::spec_has_key;
use crate::kvlist::spec_key_index;
use crate::kvlist::spec_put;
use crate::semver::is_valid_range;
use crate::semver::range_valid;
use crate::semver::sat;
use crate::semver::range_satisfies;
use crate::semver::version_le;
use crate::semver::version_le_exec;
use crate::semver::version_valid;
use crate::semver::major_of;
use crate::semver::parse_version_major;
use crate::specifier::parse_package_specifier_no_validation;
use crate::specifier::spec_parse_specifier;
use crate::store::RegistryStore;
use crate::package_data::PackageModel;
use crate::textutil::spec_dec;
use crate::textutil::str_contains_char;
use crate::textutil::str_eq;
use crate::textutil::str_starts_with;
use crate::textutil::str_to_string;
use crate::textutil::u64_to_dec;
use vstd::string::StrSliceExecFns;
use vstd::string::StringExecFns;

verus! {

/// A requested version constraint: a semver range, or a symbolic dist-tag.
pub enum DepRange {
    Range(String),
    Tag(String),
}

/// The mathematical reading of a constraint.
pub enum RangeModel {
    Range(Seq<char>),
    Tag(Seq<char>),
}

impl View for DepRange {
    type V = RangeModel;

    open spec fn view(&self) -> RangeModel {
        match self {
            DepRange::Range(s) => RangeModel::Range(s@),
            DepRange::Tag(s) => RangeModel::Tag(s@),
        }
    }
}

/// How a raw constraint string reads: `*` and the empty string mean any
/// version; a string the semver library accepts is a range; anything else is
/// taken as a dist-tag.
pub open spec fn spec_parse_range(v: Seq<char>) -> RangeModel {
    if v == "*"@ || v == Seq::<char>::empty() {
        RangeModel::Range("*"@)
    } else if range_valid(v) {
        RangeModel::Range(v)
    } else {
        RangeModel::Tag(v)
    }
}

impl DepRange {
    /// Classify a raw constraint string.
    pub fn parse(value: String) -> (r: DepRange)
        ensures
            r@ == spec_parse_range(value@),
    {
        if str_eq(value.as_str(), "*") || value.as_str().unicode_len() == 0 {
            proof {
                if value@.len() == 0 {
                    assert(value@ =~= Seq::<char>::empty());
                }
            }
            DepRange::Range(str_to_string("*"))
        } else if is_valid_range(value.as_str()) {
            DepRange::Range(value)
        } else {
            DepRange::Tag(value)
        }
    }
}

/// One dependency request: a package name and a constraint.
pub struct DepRequest {
    pub name: String,
    pub range: DepRange,
}

/// The mathematical reading of a request.
pub struct ReqModel {
    pub name: Seq<char>,
    pub range: RangeModel,
}

impl View for DepRequest {
    type V = ReqModel;

    open spec fn view(&self) -> ReqModel {
        ReqModel { name: self.name@, range: self.range@ }
    }
}

/// The reading of a request list.
pub open spec fn reqs_view(v: Seq<DepRequest>) -> Seq<ReqModel> {
    v.map_values(|r: DepRequest| r@)
}

/// What `DepRequest::from_name_version` builds: the constraint classified,
/// and an `npm:` alias redirected to the real package at request-construction
/// time. A malformed alias payload is rejected.
pub open spec fn spec_from_name_version(name: Seq<char>, version: Seq<char>) -> Option<ReqModel> {
    match spec_parse_range(version) {
        RangeModel::Tag(tag) => if tag.contains(':') && "npm:"@.is_prefix_of(tag) {
            match spec_parse_specifier(tag.skip(4)) {
                Some(parts) => Some(
                    ReqModel { name: parts.0, range: spec_parse_range(parts.1) },
                ),
                None => None,
            }
        } else {
            Some(ReqModel { name: name, range: RangeModel::Tag(tag) })
        },
        RangeModel::Range(r) => Some(ReqModel { name: name, range: RangeModel::Range(r) }),
    }
}

impl DepRequest {
    /// Pair a name with a classified constraint.
    pub fn new(name: String, range: DepRange) -> (r: DepRequest)
        ensures
            r@.name == name@,
            r@.range == range@,
    {
        DepRequest { name, range }
    }

    /// Build a request from a raw `(name, constraint)` pair, redirecting
    /// `npm:` aliases to the package they name.
    pub fn from_name_version(name: String, version: String) -> (r: Result<DepRequest, ServerError>)
        ensures
            match r {
                Ok(req) => spec_from_name_version(name@, version@) == Some(req@),
                Err(e) => spec_from_name_version(name@, version@) is None
                    && e is InvalidPackageSpecifier,
            },
    {
        let parsed_range = DepRange::parse(version);
        match &parsed_range {
            DepRange::Tag(tag) => {
                if str_contains_char(tag.as_str(), ':') && str_starts_with(tag.as_str(), "npm:") {
                    proof {
                        reveal_strlit("npm:");
                    }
                    let n = tag.as_str().unicode_len();
                    let payload = tag.as_str().substring_char(4, n);
                    match parse_package_specifier_no_validation(payload) {
                        Ok(parts) => {
                            let (actual_name, actual_version) = parts;
                            let actual_range = DepRange::parse(actual_version);
                            Ok(DepRequest { name: actual_name, range: actual_range })
                        },
                        Err(_) => Err(ServerError::InvalidPackageSpecifier),
                    }
                } else {
                    Ok(DepRequest { name, range: parsed_range })
                }
            },
            DepRange::Range(_) => Ok(DepRequest { name, range: parsed_range }),
        }
    }
}

/// The resolver's working state: the resolution map keyed `name@major`, the
/// alias map keyed `name@tag`, the versions already chosen per package name,
/// and the store snapshot it resolves against.
pub struct BuilderModel {
    pub resolutions: Seq<(Seq<char>, Seq<char>)>,
    pub aliases: Seq<(Seq<char>, Seq<char>)>,
    pub packages: Seq<(Seq<char>, Seq<Seq<char>>)>,
    pub store: Seq<(Seq<char>, PackageModel)>,
}

/// The iterative fixed-point resolver over the local store.
pub struct DepTreeBuilder {
    pub resolutions: Vec<(String, String)>,
    pub aliases: Vec<(String, String)>,
    pub packages: Vec<(String, VersionList)>,
    pub store: RegistryStore,
}

/// The version strings already chosen for one package name.
pub struct VersionList {
    pub items: Vec<String>,
}

impl View for VersionList {
    type V = Seq<Seq<char>>;

    open spec fn view(&self) -> Seq<Seq<char>> {
        self.items@.map_values(|s: String| s@)
    }
}

impl View for DepTreeBuilder {
    type V = BuilderModel;

    open spec fn view(&self) -> BuilderModel {
        BuilderModel {
            resolutions: kv_view(self.resolutions@),
            aliases: kv_view(self.aliases@),
            packages: kv_view(self.packages@),
            store: self.store@.packages,
        }
    }
}

/// The resolution key for a package name and the version chosen for it:
/// `name@major`.
pub open spec fn resolution_key(name: Seq<char>, vstr: Seq<char>) -> Seq<char> {
    name + "@"@ + spec_dec(major_of(vstr))
}

/// Filing a chosen version: the highest version wins within one `name@major`
/// key, and a version that is filed is also recorded under its package name.
pub open spec fn spec_add_dependency(st: BuilderModel, name: Seq<char>, vstr: Seq<char>) -> BuilderModel {
    let key = resolution_key(name, vstr);
    match spec_get(st.resolutions, key) {
        Some(existing) => if version_le(vstr, existing) {
            st
        } else {
            BuilderModel {
                resolutions: spec_put(st.resolutions, key, vstr),
                packages: spec_put(st.packages, name, record_version(st.packages, name, vstr)),
                ..st
            }
        },
        None => BuilderModel {
            resolutions: spec_put(st.resolutions, key, vstr),
            packages: spec_put(st.packages, name, record_version(st.packages, name, vstr)),
            ..st
        },
    }
}

/// The chosen-version list for `name` with `vstr` appended.
pub open spec fn record_version(
    packages: Seq<(Seq<char>, Seq<Seq<char>>)>,
    name: Seq<char>,
    vstr: Seq<char>,
) -> Seq<Seq<char>> {
    match spec_get(packages, name) {
        Some(vs) => vs.push(vstr),
        None => seq![vstr],
    }
}

/// Whether some version in `vs` satisfies `range`.
pub open spec fn some_version_satisfies(vs: Seq<Seq<char>>, range: Seq<char>) -> bool {
    exists|i: int| 0 <= i < vs.len() && sat(range, #[trigger] vs[i])
}

/// Whether some already-chosen version of `name` satisfies `range`.
pub open spec fn spec_has_dependency(st: BuilderModel, name: Seq<char>, range: Seq<char>) -> bool {
    match spec_get(st.packages, name) {
        Some(vs) => some_version_satisfies(vs, range),
        None => false,
    }
}

impl DepTreeBuilder {
    /// A fresh builder over a store snapshot.
    pub fn new(store: RegistryStore) -> (r: DepTreeBuilder)
        ensures
            r@.resolutions == Seq::<(Seq<char>, Seq<char>)>::empty(),
            r@.aliases == Seq::<(Seq<char>, Seq<char>)>::empty(),
            r@.packages == Seq::<(Seq<char>, Seq<Seq<char>>)>::empty(),
            r@.store == store@.packages,
            r.store == store,
    {
        let r = DepTreeBuilder {
            resolutions: Vec::new(),
            aliases: Vec::new(),
            packages: Vec::new(),
            store,
        };
        proof {
            assert(r@.resolutions =~= Seq::<(Seq<char>, Seq<char>)>::empty());
            assert(r@.aliases =~= Seq::<(Seq<char>, Seq<char>)>::empty());
            assert(r@.packages =~= Seq::<(Seq<char>, Seq<Seq<char>>)>::empty());
        }
        r
    }

    /// File `version` for `name` under `name@major`, keeping the highest
    /// version per key.
    fn add_dependency(&mut self, name: &str, version: &str)
        requires
            version_valid(version@),
        ensures
            final(self)@ == spec_add_dependency(old(self)@, name@, version@),
            final(self).store == old(self).store,
    {
        let mut key = str_to_string(name);
        key.append("@");
        let major = match parse_version_major(version) {
            Some(m) => m,
            None => 0,
        };
        let major_str = u64_to_dec(major);
        key.append(major_str.as_str());
        proof {
            assert(key@ =~= resolution_key(name@, version@));
        }
        let existing = map_get(&self.resolutions, key.as_str());
        proof {
            lemma_key_index(self@.resolutions, key@);
        }
        match existing {
            Some(value) => {
                if version_le_exec(version, value.as_str()) {
                    return ;
                }
            },
            None => {},
        }
        let recorded = match map_get(&self.packages, name) {
            Some(vs) => {
                let mut items = clone_strings(&vs.items);
                items.push(str_to_string(version));
                VersionList { items }
            },
            None => {
                let mut items: Vec<String> = Vec::new();
                items.push(str_to_string(version));
                VersionList { items }
            },
        };
        proof {
            lemma_key_index(self@.packages, name@);
            assert(recorded@ =~= record_version(self@.packages, name@, version@));
        }
        let version_string = str_to_string(version);
        map_put(&mut self.resolutions, key, version_string);
        map_put(&mut self.packages, str_to_string(name), recorded);
    }

    /// Whether some already-chosen version of `name` satisfies `range`.
    fn has_dependency(&self, name: &str, range: &str) -> (r: bool)
        ensures
            r == spec_has_dependency(self@, name@, range@),
    {
        match map_get(&self.packages, name) {
            Some(versions) => {
                let n = versions.items.len();
                let mut i: usize = 0;
                while i < n
                    invariant
                        i <= n,
                        n == versions.items@.len(),
                        versions@.len() == n,
                        spec_get(self@.packages, name@) == Some(versions@),
                        forall|j: int| 0 <= j < n ==> versions@[j] == versions.items@[j]@,
                        forall|j: int| 0 <= j < i ==> !sat(range@, #[trigger] versions@[j]),
                    decreases n - i,
                {
                    if range_satisfies(range, versions.items[i].as_str()) {
                        proof {
                            assert(some_version_satisfies(versions@, range@)) by {
                                assert((i as int) < versions@.len() && sat(
                                    range@,
                                    versions@[i as int],
                                ));
                            }
                        }
                        return true;
                    }
                    i = i + 1;
                }
                proof {
                    assert(!some_version_satisfies(versions@, range@));
                }
                false
            },
            None => {
                proof {
                    lemma_key_index(self@.packages, name@);
                }
                false
            },
        }
    }
}

/// An exact copy of a list of strings.
fn clone_strings(v: &Vec<String>) -> (r: Vec<String>)
    ensures
        r@ == v@,
{
    let mut out: Vec<String> = Vec::new();
    let n = v.len();
    let mut i: usize = 0;
    while i < n
        invariant
            i <= n,
            n == v@.len(),
            out@ == v@.take(i as int),
        decreases n - i,
    {
        out.push(v[i].clone());
        proof {
            assert(out@ =~= v@.take(i + 1));
        }
        i = i + 1;
    }
    proof {
        assert(v@.take(n as int) =~= v@);
    }
    out
}

/// An exact copy of a list of string pairs.
fn clone_string_pairs(v: &Vec<(String, String)>) -> (r: Vec<(String, String)>)
    ensures
        r@ == v@,
{
    let mut out: Vec<(String, String)> = Vec::new();
    let n = v.len();
    let mut i: usize = 0;
    while i < n
        invariant
            i <= n,
            n == v@.len(),
            out@ == v@.take(i as int),
        decreases n - i,
    {
        let pair = (v[i].0.clone(), v[i].1.clone());
        out.push(pair);
        proof {
            assert(out@ =~= v@.take(i + 1));
        }
        i = i + 1;
    }
    proof {
        assert(v@.take(n as int) =~= v@);
    }
    out
}

/// The outcome of scanning a descending version list for a range: the first
/// satisfying version, the first malformed version string met before one, or
/// nothing.
pub enum ScanResult {
    Found(int),
    Invalid(int),
    NotFound,
}

/// Walk a version list front to back: stop at the first entry whose key the
/// parser rejects, else at the first entry satisfying `range`.
pub open spec fn scan_versions(vs: Seq<(Seq<char>, crate::package_data::VersionModel)>, range: Seq<char>) -> ScanResult
    decreases vs.len(),
{
    if vs.len() == 0 {
        ScanResult::NotFound
    } else if !version_valid(vs[0].0) {
        ScanResult::Invalid(0)
    } else if sat(range, vs[0].0) {
        ScanResult::Found(0)
    } else {
        match scan_versions(vs.drop_first(), range) {
            ScanResult::Found(i) => ScanResult::Found(i + 1),
            ScanResult::Invalid(i) => ScanResult::Invalid(i + 1),
            ScanResult::NotFound => ScanResult::NotFound,
        }
    }
}

/// A scan that finds its first decision at position `i` agrees with
/// `scan_versions`.
pub proof fn lemma_scan_at(
    vs: Seq<(Seq<char>, crate::package_data::VersionModel)>,
    range: Seq<char>,
    i: int,
)
    requires
        0 <= i <= vs.len(),
        forall|j: int| 0 <= j < i ==> version_valid((#[trigger] vs[j]).0) && !sat(range, vs[j].0),
    ensures
        i == vs.len() ==> scan_versions(vs, range) == ScanResult::NotFound,
        i < vs.len() && !version_valid(vs[i].0) ==> scan_versions(vs, range)
            == ScanResult::Invalid(i),
        i < vs.len() && version_valid(vs[i].0) && sat(range, vs[i].0) ==> scan_versions(vs, range)
            == ScanResult::Found(i),
    decreases vs.len(),
{
    if i == 0 {
    } else {
        let rest = vs.drop_first();
        assert forall|j: int|
            0 <= j < i - 1 implies version_valid((#[trigger] rest[j]).0) && !sat(
            range,
            rest[j].0,
        ) by {
            assert(rest[j] == vs[j + 1]);
        }
        if i - 1 < rest.len() {
            assert(rest[i - 1] == vs[i]);
        }
        lemma_scan_at(rest, range, i - 1);
    }
}

/// The spec-level reading of an error the resolver can raise.
pub enum ErrModel {
    InvalidSemver,
    InvalidPackageSpecifier,
    PackageNotFound(Seq<char>),
    PackageVersionNotFound(Seq<char>, Seq<char>),
}

/// Whether a raised error reads as the model says.
pub open spec fn err_matches(e: ServerError, m: ErrModel) -> bool {
    match m {
        ErrModel::InvalidSemver => e is InvalidSemver,
        ErrModel::InvalidPackageSpecifier => e is InvalidPackageSpecifier,
        ErrModel::PackageNotFound(n) => e matches ServerError::PackageNotFound(s) && s@ == n,
        ErrModel::PackageVersionNotFound(n, r) => e matches ServerError::PackageVersionNotFound(
            s,
            t,
        ) && s@ == n && t@ == r,
    }
}

/// The outcome of one resolution step: a new state with the requests it
/// queued, or an error.
pub enum StepModel {
    Stepped(BuilderModel, Seq<ReqModel>),
    Failed(ErrModel),
}

/// How a constraint prints in a version-not-found error.
pub open spec fn range_to_display(r: RangeModel) -> Seq<char> {
    match r {
        RangeModel::Range(s) => s,
        RangeModel::Tag(t) => t,
    }
}

/// Record that `tag` of `name` resolved to the major of `found`.
pub open spec fn spec_alias_update(
    st: BuilderModel,
    name: Seq<char>,
    tag: Seq<char>,
    found: Seq<char>,
) -> BuilderModel {
    BuilderModel {
        aliases: spec_put(
            st.aliases,
            name + "@"@ + tag,
            name + "@"@ + spec_dec(major_of(found)),
        ),
        ..st
    }
}

/// Queue a request for each dependency pair, in order; a malformed `npm:`
/// alias rejects the whole list.
pub open spec fn build_transient(
    dm: Seq<(Seq<char>, Seq<char>)>,
    acc: Seq<ReqModel>,
) -> Option<Seq<ReqModel>>
    decreases dm.len(),
{
    if dm.len() == 0 {
        Some(acc)
    } else {
        match spec_from_name_version(dm[0].0, dm[0].1) {
            Some(req) => build_transient(dm.drop_first(), acc.push(req)),
            None => None,
        }
    }
}

/// Resolve one request against an effective range: skip when a chosen
/// version of the package already satisfies it; else pick the first
/// satisfying version in descending order, file it, and queue the version's
/// dependencies.
pub open spec fn resolve_with_range(
    st: BuilderModel,
    name: Seq<char>,
    range: Seq<char>,
    display: Seq<char>,
    deps: Seq<ReqModel>,
    data: PackageModel,
) -> StepModel {
    if spec_has_dependency(st, name, range) {
        StepModel::Stepped(st, deps)
    } else {
        match scan_versions(data.versions, range) {
            ScanResult::Invalid(_) => StepModel::Failed(ErrModel::InvalidSemver),
            ScanResult::NotFound => StepModel::Failed(
                ErrModel::PackageVersionNotFound(name, display),
            ),
            ScanResult::Found(i) => {
                let vstr = data.versions[i].0;
                let st2 = spec_add_dependency(st, name, vstr);
                match build_transient(data.versions[i].1.dependencies, deps) {
                    Some(deps2) => StepModel::Stepped(st2, deps2),
                    None => StepModel::Failed(ErrModel::InvalidPackageSpecifier),
                }
            },
        }
    }
}

/// Resolve one request: look the package up in the store; turn a dist-tag
/// into the tagged version and record the alias; skip special `:` specifiers
/// silently; then resolve against the effective range.
pub open spec fn spec_resolve_dependency(
    st: BuilderModel,
    req: ReqModel,
    deps: Seq<ReqModel>,
) -> StepModel {
    match spec_get(st.store, req.name) {
        None => StepModel::Failed(ErrModel::PackageNotFound(req.name)),
        Some(data) => match req.range {
            RangeModel::Tag(tag) => match spec_get(data.dist_tags, tag) {
                Some(found) => if !range_valid(found) || !version_valid(found) {
                    StepModel::Failed(ErrModel::InvalidSemver)
                } else {
                    resolve_with_range(
                        spec_alias_update(st, req.name, tag, found),
                        req.name,
                        found,
                        tag,
                        deps,
                        data,
                    )
                },
                None => if tag.contains(':') {
                    StepModel::Stepped(st, deps)
                } else {
                    StepModel::Failed(ErrModel::InvalidPackageSpecifier)
                },
            },
            RangeModel::Range(r) => resolve_with_range(st, req.name, r, r, deps, data),
        },
    }
}

impl DepTreeBuilder {
    /// Resolve one request against the store snapshot: file the first
    /// version, in descending precedence order, that satisfies the effective
    /// range, and queue that version's dependencies onto `transient_deps`.
    #[verifier::rlimit(100)]
    fn resolve_dependency(&mut self, request: DepRequest, transient_deps: Vec<DepRequest>) -> (r:
        Result<Vec<DepRequest>, ServerError>)
        ensures
            final(self).store == old(self).store,
            match r {
                Ok(deps) => spec_resolve_dependency(
                    old(self)@,
                    request@,
                    reqs_view(transient_deps@),
                ) == StepModel::Stepped(final(self)@, reqs_view(deps@)),
                Err(e) => spec_resolve_dependency(
                    old(self)@,
                    request@,
                    reqs_view(transient_deps@),
                ) matches StepModel::Failed(m) && err_matches(e, m),
            },
    {
        let ghost st0 = self@;
        let ghost reqm = request@;
        let ghost deps0 = reqs_view(transient_deps@);

        let data = match self.store.get_package(request.name.as_str()) {
            Ok(d) => d,
            Err(e) => {
                proof {
                    lemma_key_index(st0.store, reqm.name);
                    assert(spec_resolve_dependency(st0, reqm, deps0) == StepModel::Failed(
                        ErrModel::PackageNotFound(reqm.name),
                    ));
                }
                return Err(e);
            },
        };
        let ghost datam = data@;
        proof {
            lemma_kv_view_index(data.versions@);
        }

        // The effective range, and the alias entry a dist-tag contributes.
        let range_string: String;
        let mut alias_entry: Option<(String, String)> = None;
        match &request.range {
            DepRange::Tag(tag) => {
                match map_get(&data.dist_tags, tag.as_str()) {
                    Some(found_version) => {
                        if !is_valid_range(found_version.as_str()) {
                            proof {
                                assert(spec_resolve_dependency(st0, reqm, deps0)
                                    == StepModel::Failed(ErrModel::InvalidSemver));
                            }
                            return Err(ServerError::InvalidSemver);
                        }
                        let major = match parse_version_major(found_version.as_str()) {
                            Some(m) => m,
                            None => {
                                proof {
                                    assert(spec_resolve_dependency(st0, reqm, deps0)
                                        == StepModel::Failed(ErrModel::InvalidSemver));
                                }
                                return Err(ServerError::InvalidSemver);
                            },
                        };
                        let mut akey = request.name.clone();
                        akey.append("@");
                        akey.append(tag.as_str());
                        let mut aval = request.name.clone();
                        aval.append("@");
                        let major_str = u64_to_dec(major);
                        aval.append(major_str.as_str());
                        proof {
                            assert(akey@ =~= reqm.name + "@"@ + tag@);
                            assert(aval@ =~= reqm.name + "@"@ + spec_dec(
                                major_of(found_version@),
                            ));
                        }
                        alias_entry = Some((akey, aval));
                        range_string = found_version.clone();
                    },
                    None => {
                        proof {
                            lemma_key_index(datam.dist_tags, tag@);
                        }
                        if str_contains_char(tag.as_str(), ':') {
                            proof {
                                assert(spec_resolve_dependency(st0, reqm, deps0)
                                    == StepModel::Stepped(st0, deps0));
                            }
                            return Ok(transient_deps);
                        } else {
                            proof {
                                assert(spec_resolve_dependency(st0, reqm, deps0)
                                    == StepModel::Failed(ErrModel::InvalidPackageSpecifier));
                            }
                            return Err(ServerError::InvalidPackageSpecifier);
                        }
                    },
                }
            },
            DepRange::Range(r) => {
                range_string = r.clone();
            },
        }
        let ghost st1 = match reqm.range {
            RangeModel::Tag(tag) => spec_alias_update(st0, reqm.name, tag, range_string@),
            RangeModel::Range(_) => st0,
        };
        let ghost display = range_to_display(reqm.range);
        let ghost target = resolve_with_range(
            st1,
            reqm.name,
            range_string@,
            display,
            deps0,
            datam,
        );
        proof {
            assert(spec_resolve_dependency(st0, reqm, deps0) == target);
        }

        if self.has_dependency(request.name.as_str(), range_string.as_str()) {
            proof {
                assert(spec_has_dependency(st1, reqm.name, range_string@) == spec_has_dependency(
                    st0,
                    reqm.name,
                    range_string@,
                ));
                assert(target == StepModel::Stepped(st1, deps0));
            }
            match alias_entry {
                Some(entry) => {
                    map_put(&mut self.aliases, entry.0, entry.1);
                },
                None => {},
            }
            proof {
                assert(self@ == st1);
            }
            return Ok(transient_deps);
        }
        proof {
            assert(!spec_has_dependency(st1, reqm.name, range_string@));
        }

        // Pick the first satisfying version in descending order.
        let versions = &data.versions;
        let n = versions.len();
        let mut i: usize = 0;
        let mut chosen: Option<(String, Vec<(String, String)>)> = None;
        while i < n && chosen.is_none()
            invariant
                self@ == st0,
                old(self)@ == st0,
                self.store == old(self).store,
                reqm == request@,
                deps0 == reqs_view(transient_deps@),
                target == spec_resolve_dependency(st0, reqm, deps0),
                target == resolve_with_range(
                    st1,
                    reqm.name,
                    range_string@,
                    display,
                    deps0,
                    datam,
                ),
                !spec_has_dependency(st1, reqm.name, range_string@),
                i <= n,
                n == versions@.len(),
                datam.versions.len() == n,
                versions@ == data.versions@,
                datam == data@,
                forall|j: int| 0 <= j < n ==> datam.versions[j] == (
                    versions@[j].0@,
                    versions@[j].1@,
                ),
                chosen is None ==> forall|j: int| 0 <= j < i ==> version_valid(
                    (#[trigger] datam.versions[j]).0,
                ) && !sat(range_string@, datam.versions[j].0),
                match chosen {
                    Some(c) => i < n && version_valid(datam.versions[i as int].0) && sat(
                        range_string@,
                        datam.versions[i as int].0,
                    ) && c.0@ == datam.versions[i as int].0 && kv_view(c.1@)
                        == datam.versions[i as int].1.dependencies && (forall|j: int|
                        0 <= j < i ==> version_valid((#[trigger] datam.versions[j]).0) && !sat(
                            range_string@,
                            datam.versions[j].0,
                        )),
                    None => true,
                },
            decreases n - i, (if chosen is None { 1int } else { 0int }),
        {
            let entry_key = &versions[i].0;
            match parse_version_major(entry_key.as_str()) {
                Some(_) => {},
                None => {
                    proof {
                        lemma_scan_at(datam.versions, range_string@, i as int);
                        assert(target == StepModel::Failed(ErrModel::InvalidSemver));
                    }
                    return Err(ServerError::InvalidSemver);
                },
            }
            if range_satisfies(range_string.as_str(), entry_key.as_str()) {
                let vstr = entry_key.clone();
                let pairs = clone_string_pairs(&versions[i].1.dependencies);
                proof {
                    assert(kv_view(pairs@) =~= datam.versions[i as int].1.dependencies);
                }
                chosen = Some((vstr, pairs));
            } else {
                i = i + 1;
            }
        }

        let (version_string, dep_pairs) = match chosen {
            Some(c) => c,
            None => {
                proof {
                    lemma_scan_at(datam.versions, range_string@, n as int);
                    assert(target == StepModel::Failed(
                        ErrModel::PackageVersionNotFound(reqm.name, display),
                    ));
                }
                let name_string = request.name.clone();
                let display_string = match request.range {
                    DepRange::Tag(t) => t,
                    DepRange::Range(rr) => rr,
                };
                return Err(ServerError::PackageVersionNotFound(name_string, display_string));
            },
        };
        proof {
            lemma_scan_at(datam.versions, range_string@, i as int);
            assert(scan_versions(datam.versions, range_string@) == ScanResult::Found(i as int));
        }

        // File the version and queue its dependencies.
        match alias_entry {
            Some(entry) => {
                map_put(&mut self.aliases, entry.0, entry.1);
            },
            None => {},
        }
        proof {
            assert(self@ == st1);
        }
        self.add_dependency(request.name.as_str(), version_string.as_str());
        let ghost st2 = spec_add_dependency(st1, reqm.name, version_string@);
        proof {
            assert(self@ == st2);
        }

        let ghost dm = datam.versions[i as int].1.dependencies;
        let ghost goal = target;
        proof {
            assert(goal == match build_transient(dm, deps0) {
                Some(d2) => StepModel::Stepped(st2, d2),
                None => StepModel::Failed(ErrModel::InvalidPackageSpecifier),
            });
        }
        let mut deps = transient_deps;
        let mut pairs = dep_pairs;
        proof {
            assert(kv_view(pairs@) == dm);
        }
        while pairs.len() > 0
            invariant
                self@ == st2,
                self.store == old(self).store,
                goal == spec_resolve_dependency(old(self)@, request@, reqs_view(transient_deps@)),
                goal == (match build_transient(kv_view(pairs@), reqs_view(deps@)) {
                    Some(d2) => StepModel::Stepped(st2, d2),
                    None => StepModel::Failed(ErrModel::InvalidPackageSpecifier),
                }),
            decreases pairs.len(),
        {
            let ghost pm = kv_view(pairs@);
            let (dep_name, dep_range) = pairs.remove(0);
            proof {
                lemma_kv_view_index(pairs@);
                assert(kv_view(pairs@) =~= pm.drop_first());
                assert(pm[0] == (dep_name@, dep_range@));
            }
            match DepRequest::from_name_version(dep_name, dep_range) {
                Ok(req) => {
                    let ghost pre = reqs_view(deps@);
                    deps.push(req);
                    proof {
                        assert(reqs_view(deps@) =~= pre.push(req@));
                    }
                },
                Err(e) => {
                    return Err(e);
                },
            }
        }
        proof {
            assert(kv_view(pairs@) =~= Seq::<(Seq<char>, Seq<char>)>::empty());
            assert(build_transient(kv_view(pairs@), reqs_view(deps@)) == Some(reqs_view(deps@)));
        }
        Ok(deps)
    }
}

/// Process one wave of requests, left to right: a request whose range is
/// already covered by a chosen version of its package is skipped, every
/// other one is resolved; the requests their chosen versions introduce are
/// collected for the next wave.
pub open spec fn spec_resolve_many(
    st: BuilderModel,
    reqs: Seq<ReqModel>,
    acc: Seq<ReqModel>,
) -> StepModel
    decreases reqs.len(),
{
    if reqs.len() == 0 {
        StepModel::Stepped(st, acc)
    } else {
        let req = reqs[0];
        let skip = match req.range {
            RangeModel::Range(r) => spec_has_dependency(st, req.name, r),
            RangeModel::Tag(_) => false,
        };
        if skip {
            spec_resolve_many(st, reqs.drop_first(), acc)
        } else {
            match spec_resolve_dependency(st, req, acc) {
                StepModel::Stepped(st2, acc2) => spec_resolve_many(st2, reqs.drop_first(), acc2),
                StepModel::Failed(e) => StepModel::Failed(e),
            }
        }
    }
}

/// Iterate waves until no requests remain, stopping after `fuel` waves as a
/// safety bound against pathological cycles; hitting the bound keeps what
/// was resolved so far and is not an error.
pub open spec fn spec_resolve_tree(st: BuilderModel, reqs: Seq<ReqModel>, fuel: nat) -> Result<
    BuilderModel,
    ErrModel,
>
    decreases fuel,
{
    if reqs.len() == 0 || fuel == 0 {
        Result::Ok(st)
    } else {
        match spec_resolve_many(st, reqs, Seq::empty()) {
            StepModel::Stepped(st2, next) => spec_resolve_tree(st2, next, (fuel - 1) as nat),
            StepModel::Failed(e) => Result::Err(e),
        }
    }
}

impl DepTreeBuilder {
    /// Process one wave of requests, collecting the next wave.
    fn resolve_dependencies(&mut self, deps: Vec<DepRequest>) -> (r: Result<
        Vec<DepRequest>,
        ServerError,
    >)
        ensures
            final(self).store == old(self).store,
            match r {
                Ok(out) => spec_resolve_many(old(self)@, reqs_view(deps@), Seq::empty())
                    == StepModel::Stepped(final(self)@, reqs_view(out@)),
                Err(e) => spec_resolve_many(old(self)@, reqs_view(deps@), Seq::empty()) matches
                    StepModel::Failed(m) && err_matches(e, m),
            },
    {
        let ghost st0 = self@;
        let ghost rv = reqs_view(deps@);
        let mut transient: Vec<DepRequest> = Vec::new();
        let mut queue = deps;
        proof {
            assert(reqs_view(queue@) =~= rv);
            assert(reqs_view(transient@) =~= Seq::<ReqModel>::empty());
        }
        while queue.len() > 0
            invariant
                self.store == old(self).store,
                st0 == old(self)@,
                rv == reqs_view(deps@),
                spec_resolve_many(st0, rv, Seq::empty()) == spec_resolve_many(
                    self@,
                    reqs_view(queue@),
                    reqs_view(transient@),
                ),
            decreases queue.len(),
        {
            let ghost qv = reqs_view(queue@);
            let ghost pre = self@;
            let ghost acc = reqs_view(transient@);
            let request = queue.remove(0);
            proof {
                assert(reqs_view(queue@) =~= qv.drop_first());
                assert(qv[0] == request@);
            }
            let skip = match &request.range {
                DepRange::Range(rr) => self.has_dependency(request.name.as_str(), rr.as_str()),
                DepRange::Tag(_) => false,
            };
            proof {
                assert(skip == (match qv[0].range {
                    RangeModel::Range(r2) => spec_has_dependency(pre, qv[0].name, r2),
                    RangeModel::Tag(_) => false,
                }));
            }
            if !skip {
                let result = self.resolve_dependency(request, transient);
                match result {
                    Ok(t2) => {
                        transient = t2;
                        proof {
                            assert(spec_resolve_many(pre, qv, acc) == spec_resolve_many(
                                self@,
                                qv.drop_first(),
                                reqs_view(transient@),
                            ));
                        }
                    },
                    Err(e) => {
                        proof {
                            assert(spec_resolve_many(pre, qv, acc) matches StepModel::Failed(m2)
                                && err_matches(e, m2));
                        }
                        return Err(e);
                    },
                }
            }
        }
        proof {
            assert(reqs_view(queue@).len() == 0);
        }
        Ok(transient)
    }

    /// Resolve a request set to a fixed point, bounded by 200 waves.
    pub fn resolve_tree(&mut self, deps: Vec<DepRequest>) -> (r: Result<(), ServerError>)
        ensures
            final(self).store == old(self).store,
            match r {
                Ok(_) => spec_resolve_tree(old(self)@, reqs_view(deps@), 200) == Result::<
                    BuilderModel,
                    ErrModel,
                >::Ok(final(self)@),
                Err(e) => spec_resolve_tree(old(self)@, reqs_view(deps@), 200) matches
                    Result::Err(m) && err_matches(e, m),
            },
    {
        let ghost st0 = self@;
        let ghost rv0 = reqs_view(deps@);
        let mut queue = deps;
        let mut count: u64 = 0;
        while queue.len() > 0 && count < 200
            invariant
                self.store == old(self).store,
                st0 == old(self)@,
                rv0 == reqs_view(deps@),
                count <= 200,
                spec_resolve_tree(st0, rv0, 200) == spec_resolve_tree(
                    self@,
                    reqs_view(queue@),
                    (200 - count) as nat,
                ),
            decreases 200 - count,
        {
            let ghost qv = reqs_view(queue@);
            let result = self.resolve_dependencies(queue);
            match result {
                Ok(next) => {
                    queue = next;
                },
                Err(e) => {
                    return Err(e);
                },
            }
            count = count + 1;
        }
        proof {
            if reqs_view(queue@).len() > 0 {
                assert((200 - count) as nat == 0);
            }
        }
        Ok(())
    }
}

/// Determinism: the outcome of resolution is a function of the store
/// snapshot and the request list alone. `resolve_tree`'s contract pins its
/// result to this function, so two resolutions against the same snapshot
/// with the same input produce equal resolution and alias maps.
pub proof fn lemma_resolution_deterministic(
    st1: BuilderModel,
    st2: BuilderModel,
    reqs1: Seq<ReqModel>,
    reqs2: Seq<ReqModel>,
)
    requires
        st1 == st2,
        reqs1 == reqs2,
    ensures
        spec_resolve_tree(st1, reqs1, 200) == spec_resolve_tree(st2, reqs2, 200),
{
}

/// Some range accepts `v`.
pub open spec fn satisfies_some_range(v: Seq<char>) -> bool {
    exists|r: Seq<char>| #[trigger] sat(r, v)
}

/// Every filed resolution value satisfies some range it was selected
/// against.
pub open spec fn resolutions_satisfying(st: BuilderModel) -> bool {
    forall|i: int| 0 <= i < st.resolutions.len() ==> satisfies_some_range(
        (#[trigger] st.resolutions[i]).1,
    )
}

/// Satisfaction of every resolution value carries over to any state with
/// the same resolution map.
pub proof fn lemma_satisfying_transfer(a: BuilderModel, b: BuilderModel)
    requires
        resolutions_satisfying(a),
        a.resolutions == b.resolutions,
    ensures
        resolutions_satisfying(b),
{
    assert forall|i: int| 0 <= i < b.resolutions.len() implies satisfies_some_range(
        (#[trigger] b.resolutions[i]).1,
    ) by {
        assert(b.resolutions[i] == a.resolutions[i]);
        assert(satisfies_some_range(a.resolutions[i].1));
    }
}

/// What a successful scan finds: an in-range index whose version parses and
/// satisfies the range.
pub proof fn lemma_scan_found_sat(
    vs: Seq<(Seq<char>, crate::package_data::VersionModel)>,
    range: Seq<char>,
)
    ensures
        match scan_versions(vs, range) {
            ScanResult::Found(i) => 0 <= i < vs.len() && version_valid(vs[i].0) && sat(
                range,
                vs[i].0,
            ),
            _ => true,
        },
    decreases vs.len(),
{
    if vs.len() == 0 {
    } else if !version_valid(vs[0].0) {
    } else if sat(range, vs[0].0) {
    } else {
        lemma_scan_found_sat(vs.drop_first(), range);
    }
}

/// Filing a version that satisfies the range it was selected against keeps
/// every resolution value satisfying.
pub proof fn lemma_add_dep_satisfying(st: BuilderModel, name: Seq<char>, vstr: Seq<char>, range: Seq<char>)
    requires
        resolutions_satisfying(st),
        sat(range, vstr),
    ensures
        resolutions_satisfying(spec_add_dependency(st, name, vstr)),
        spec_has_key(
            spec_add_dependency(st, name, vstr).resolutions,
            resolution_key(name, vstr),
        ),
{
    let key = resolution_key(name, vstr);
    let out = spec_add_dependency(st, name, vstr);
    lemma_key_index(st.resolutions, key);
    let i = spec_key_index(st.resolutions, key);
    if spec_get(st.resolutions, key) is Some && version_le(
        vstr,
        st.resolutions[i].1,
    ) {
        assert(out == st);
        lemma_satisfying_transfer(st, out);
        assert(spec_has_key(out.resolutions, key));
    } else {
        assert(out.resolutions == spec_put(st.resolutions, key, vstr));
        if i >= 0 {
            assert(out.resolutions[i] == (key, vstr));
            assert(spec_has_key(out.resolutions, key));
            assert forall|j: int| 0 <= j < out.resolutions.len() implies satisfies_some_range(
                (#[trigger] out.resolutions[j]).1,
            ) by {
                if j == i {
                    assert(sat(range, out.resolutions[j].1));
                } else {
                    assert(out.resolutions[j] == st.resolutions[j]);
                    assert(satisfies_some_range(st.resolutions[j].1));
                }
            }
        } else {
            assert(out.resolutions[st.resolutions.len() as int] == (key, vstr));
            assert(spec_has_key(out.resolutions, key));
            assert forall|j: int| 0 <= j < out.resolutions.len() implies satisfies_some_range(
                (#[trigger] out.resolutions[j]).1,
            ) by {
                if j == st.resolutions.len() {
                    assert(sat(range, out.resolutions[j].1));
                } else {
                    assert(out.resolutions[j] == st.resolutions[j]);
                    assert(satisfies_some_range(st.resolutions[j].1));
                }
            }
        }
    }
}

/// One resolution step keeps every resolution value satisfying.
pub proof fn lemma_step_satisfying(st: BuilderModel, req: ReqModel, acc: Seq<ReqModel>)
    requires
        resolutions_satisfying(st),
    ensures
        match spec_resolve_dependency(st, req, acc) {
            StepModel::Stepped(st2, _) => resolutions_satisfying(st2),
            StepModel::Failed(_) => true,
        },
{
    match spec_get(st.store, req.name) {
        None => {},
        Some(data) => {
            match req.range {
                RangeModel::Tag(tag) => {
                    match spec_get(data.dist_tags, tag) {
                        Some(found) => {
                            if range_valid(found) && version_valid(found) {
                                let st1 = spec_alias_update(st, req.name, tag, found);
                                lemma_satisfying_transfer(st, st1);
                                lemma_with_range_satisfying(st1, req.name, found, tag, acc, data);
                            }
                        },
                        None => {},
                    }
                },
                RangeModel::Range(r) => {
                    lemma_with_range_satisfying(st, req.name, r, r, acc, data);
                },
            }
        },
    }
}

/// Resolving against an effective range keeps every resolution value
/// satisfying.
pub proof fn lemma_with_range_satisfying(
    st: BuilderModel,
    name: Seq<char>,
    range: Seq<char>,
    display: Seq<char>,
    acc: Seq<ReqModel>,
    data: PackageModel,
)
    requires
        resolutions_satisfying(st),
    ensures
        match resolve_with_range(st, name, range, display, acc, data) {
            StepModel::Stepped(st2, _) => resolutions_satisfying(st2),
            StepModel::Failed(_) => true,
        },
{
    if !spec_has_dependency(st, name, range) {
        lemma_scan_found_sat(data.versions, range);
        match scan_versions(data.versions, range) {
            ScanResult::Found(i) => {
                lemma_add_dep_satisfying(st, name, data.versions[i].0, range);
            },
            _ => {},
        }
    }
}

/// One wave keeps every resolution value satisfying.
pub proof fn lemma_many_satisfying(st: BuilderModel, reqs: Seq<ReqModel>, acc: Seq<ReqModel>)
    requires
        resolutions_satisfying(st),
    ensures
        match spec_resolve_many(st, reqs, acc) {
            StepModel::Stepped(st2, _) => resolutions_satisfying(st2),
            StepModel::Failed(_) => true,
        },
    decreases reqs.len(),
{
    if reqs.len() > 0 {
        let req = reqs[0];
        let skip = match req.range {
            RangeModel::Range(r) => spec_has_dependency(st, req.name, r),
            RangeModel::Tag(_) => false,
        };
        if skip {
            lemma_many_satisfying(st, reqs.drop_first(), acc);
        } else {
            lemma_step_satisfying(st, req, acc);
            match spec_resolve_dependency(st, req, acc) {
                StepModel::Stepped(st2, acc2) => {
                    lemma_many_satisfying(st2, reqs.drop_first(), acc2);
                },
                StepModel::Failed(_) => {},
            }
        }
    }
}

/// Every resolution key a successful `resolve_tree` run produces maps to a
/// version that satisfied the range it was selected against: the version
/// filed under a key either satisfied its own request's effective range, or
/// displaced a lower one and satisfied the range it was itself chosen for.
pub proof fn lemma_resolved_versions_satisfy(st: BuilderModel, reqs: Seq<ReqModel>, fuel: nat)
    requires
        resolutions_satisfying(st),
    ensures
        match spec_resolve_tree(st, reqs, fuel) {
            Result::Ok(st2) => resolutions_satisfying(st2),
            Result::Err(_) => true,
        },
    decreases fuel,
{
    if reqs.len() == 0 || fuel == 0 {
    } else {
        lemma_many_satisfying(st, reqs, Seq::empty());
        match spec_resolve_many(st, reqs, Seq::empty()) {
            StepModel::Stepped(st2, next) => {
                lemma_resolved_versions_satisfy(st2, next, (fuel - 1) as nat);
            },
            StepModel::Failed(_) => {},
        }
    }
}

/// Every stored version string of `data` parses.
pub open spec fn all_versions_valid(data: PackageModel) -> bool {
    forall|j: int| 0 <= j < data.versions.len() ==> version_valid((#[trigger] data.versions[j]).0)
}

/// Some stored version of `data` satisfies `range`.
pub open spec fn some_stored_version_satisfies(data: PackageModel, range: Seq<char>) -> bool {
    exists|j: int| 0 <= j < data.versions.len() && sat(range, (#[trigger] data.versions[j]).0)
}

/// Every dependency pair of `v` yields a request.
pub open spec fn version_deps_wellformed(v: crate::package_data::VersionModel) -> bool {
    forall|k: int| 0 <= k < v.dependencies.len() ==> spec_from_name_version(
        (#[trigger] v.dependencies[k]).0,
        v.dependencies[k].1,
    ) is Some
}

/// Every dependency pair of every version of `data` yields a request.
pub open spec fn all_deps_wellformed(data: PackageModel) -> bool {
    forall|j: int| 0 <= j < data.versions.len() ==> version_deps_wellformed(
        (#[trigger] data.versions[j]).1,
    )
}

/// With every version string parseable and some version satisfying, the
/// scan finds one.
pub proof fn lemma_scan_finds(
    vs: Seq<(Seq<char>, crate::package_data::VersionModel)>,
    range: Seq<char>,
)
    requires
        forall|j: int| 0 <= j < vs.len() ==> version_valid((#[trigger] vs[j]).0),
        exists|j: int| 0 <= j < vs.len() && sat(range, (#[trigger] vs[j]).0),
    ensures
        scan_versions(vs, range) is Found,
    decreases vs.len(),
{
    if sat(range, vs[0].0) {
    } else {
        let rest = vs.drop_first();
        let j = choose|j: int| 0 <= j < vs.len() && sat(range, #[trigger] vs[j].0);
        assert(rest[j - 1] == vs[j]);
        assert forall|k: int| 0 <= k < rest.len() implies version_valid((#[trigger] rest[k]).0) by {
            assert(rest[k] == vs[k + 1]);
        }
        assert(0 <= j - 1 < rest.len() && sat(range, rest[j - 1].0));
        lemma_scan_finds(rest, range);
    }
}

/// With every dependency pair well-formed, queueing them succeeds.
pub proof fn lemma_build_transient_some(dm: Seq<(Seq<char>, Seq<char>)>, acc: Seq<ReqModel>)
    requires
        forall|k: int| 0 <= k < dm.len() ==> spec_from_name_version(
            (#[trigger] dm[k]).0,
            dm[k].1,
        ) is Some,
    ensures
        build_transient(dm, acc) is Some,
    decreases dm.len(),
{
    if dm.len() > 0 {
        let rest = dm.drop_first();
        assert forall|k: int| 0 <= k < rest.len() implies spec_from_name_version(
            (#[trigger] rest[k]).0,
            rest[k].1,
        ) is Some by {
            assert(rest[k] == dm[k + 1]);
        }
        match spec_from_name_version(dm[0].0, dm[0].1) {
            Some(req) => {
                lemma_build_transient_some(rest, acc.push(req));
            },
            None => {},
        }
    }
}

/// A range request for a package the store knows, not yet chosen, whose
/// stored version strings all parse, with some version satisfying the range
/// and every dependency pair well-formed, resolves: the step succeeds and
/// the resolution map gains a key for the package under the chosen
/// version's major.
pub proof fn lemma_request_resolves(st: BuilderModel, req: ReqModel, acc: Seq<ReqModel>)
    requires
        resolutions_satisfying(st),
        req.range is Range,
        spec_get(st.packages, req.name) is None,
        spec_get(st.store, req.name) is Some,
        all_versions_valid(spec_get(st.store, req.name).unwrap()),
        some_stored_version_satisfies(
            spec_get(st.store, req.name).unwrap(),
            req.range->Range_0,
        ),
        all_deps_wellformed(spec_get(st.store, req.name).unwrap()),
    ensures
        spec_resolve_dependency(st, req, acc) is Stepped,
        exists|v: Seq<char>|
            sat(req.range->Range_0, v) && #[trigger] spec_has_key(
                (spec_resolve_dependency(st, req, acc))->Stepped_0.resolutions,
                resolution_key(req.name, v),
            ),
{
    let data = spec_get(st.store, req.name).unwrap();
    let range = req.range->Range_0;
    assert(!spec_has_dependency(st, req.name, range));
    lemma_scan_finds(data.versions, range);
    lemma_scan_found_sat(data.versions, range);
    match scan_versions(data.versions, range) {
        ScanResult::Found(i) => {
            let vstr = data.versions[i].0;
            lemma_add_dep_satisfying(st, req.name, vstr, range);
            let st2 = spec_add_dependency(st, req.name, vstr);
            assert(version_deps_wellformed(data.versions[i].1));
            lemma_build_transient_some(data.versions[i].1.dependencies, acc);
            assert(spec_resolve_dependency(st, req, acc) == StepModel::Stepped(
                st2,
                build_transient(data.versions[i].1.dependencies, acc).unwrap(),
            ));
            assert(sat(range, vstr) && spec_has_key(
                (spec_resolve_dependency(st, req, acc))->Stepped_0.resolutions,
                resolution_key(req.name, vstr),
            ));
        },
        _ => {
            assert(false);
        },
    }
}

} // verus!
