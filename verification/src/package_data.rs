use vstd::prelude::*;

use crate::kvlist::kv_view;
use crate::kvlist::lemma_key_index;
use crate::kvlist::lemma_key_index_is;
use crate::kvlist::lemma_kv_view_index;
use crate::kvlist::lemma_put_get;
use crate::kvlist::map_del;
use crate::kvlist::remove_keys;
use crate::kvlist::spec_del;
use crate::kvlist::spec_get;
use crate::kvlist::spec_has_key;
use crate::kvlist::spec_key_index;
use crate::kvlist::spec_put;
use crate::kvlist::spec_unique_keys;
use crate::semver::version_le;
use crate::semver::version_le_exec;
use crate::textutil::str_eq;

verus! {

/// The distribution block of a raw registry document's version: only the
/// tarball location matters to this service.
pub struct DocumentPackageDist {
    pub tarball: String,
}

/// One version of a raw registry document, as the change feed carries it.
pub struct DocumentPackageVersion {
    pub dependencies: Option<Vec<(String, String)>>,
    pub optional_dependencies: Option<Vec<(String, String)>>,
    pub dist: DocumentPackageDist,
}

/// A package document as the registry's change feed delivers it.
pub struct RegistryDocument {
    pub id: String,
    pub deleted: bool,
    pub dist_tags: Option<Vec<(String, String)>>,
    pub versions: Option<Vec<(String, DocumentPackageVersion)>>,
}

/// The distribution block of a registry metadata document.
pub struct PackageDist {
    pub tarball: String,
}

/// One version of a registry metadata document, fetched on demand.
pub struct PackageVersion {
    pub dist: PackageDist,
    pub dependencies: Vec<(String, String)>,
}

/// A package metadata document, fetched on demand from the registry.
pub struct PackageMetadata {
    pub name: String,
    pub dist_tags: Option<Vec<(String, String)>>,
    pub versions: Option<Vec<(String, PackageVersion)>>,
}

/// The slimmed form of a metadata document: version name to tarball location.
pub struct NormalizedPackageMetadata {
    pub name: String,
    pub dist_tags: Option<Vec<(String, String)>>,
    pub versions: Option<Vec<(String, String)>>,
}

/// What the store keeps of one published version: where its tarball lives
/// and what it depends on, optional dependencies already removed.
pub struct MinimalPackageVersionData {
    pub tarball: String,
    pub dependencies: Vec<(String, String)>,
}

/// The mathematical reading of a stored version.
pub struct VersionModel {
    pub tarball: Seq<char>,
    pub dependencies: Seq<(Seq<char>, Seq<char>)>,
}

impl View for MinimalPackageVersionData {
    type V = VersionModel;

    open spec fn view(&self) -> VersionModel {
        VersionModel { tarball: self.tarball@, dependencies: kv_view(self.dependencies@) }
    }
}

/// What the store keeps of one package: its dist-tags, its versions sorted
/// in descending semver precedence, and when it was last refreshed.
pub struct MinimalPackageData {
    pub name: String,
    pub dist_tags: Vec<(String, String)>,
    pub versions: Vec<(String, MinimalPackageVersionData)>,
    pub last_updated: Option<u64>,
}

/// The mathematical reading of a stored package.
pub struct PackageModel {
    pub name: Seq<char>,
    pub dist_tags: Seq<(Seq<char>, Seq<char>)>,
    pub versions: Seq<(Seq<char>, VersionModel)>,
    pub last_updated: Option<u64>,
}

impl View for MinimalPackageData {
    type V = PackageModel;

    open spec fn view(&self) -> PackageModel {
        PackageModel {
            name: self.name@,
            dist_tags: kv_view(self.dist_tags@),
            versions: kv_view(self.versions@),
            last_updated: self.last_updated,
        }
    }
}

/// Adjacent entries step downward: every entry's version precedes or equals
/// the one before it, so a left-to-right walk sees versions in descending
/// precedence.
pub open spec fn versions_sorted_desc<V>(vs: Seq<(Seq<char>, V)>) -> bool {
    forall|i: int| 0 <= i && i + 1 < vs.len() ==> version_le(vs[i + 1].0, (#[trigger] vs[i]).0)
}

impl MinimalPackageData {
    /// Well-formed: version keys are unique and stand in descending
    /// precedence order.
    pub open spec fn wf(&self) -> bool {
        spec_unique_keys(self@.versions) && versions_sorted_desc(self@.versions)
    }
}

/// `vs` with `(k, v)` placed before the first entry whose version precedes
/// or equals `k`.
pub open spec fn insert_desc<V>(vs: Seq<(Seq<char>, V)>, k: Seq<char>, v: V) -> Seq<
    (Seq<char>, V),
>
    decreases vs.len(),
{
    if vs.len() == 0 {
        seq![(k, v)]
    } else if version_le(vs[0].0, k) {
        seq![(k, v)] + vs
    } else {
        seq![vs[0]] + insert_desc(vs.drop_first(), k, v)
    }
}

/// Store `v` under `k` in a descending version list: an existing entry is
/// replaced in place, a new key is placed at its sorted position.
pub open spec fn sorted_put<V>(vs: Seq<(Seq<char>, V)>, k: Seq<char>, v: V) -> Seq<
    (Seq<char>, V),
> {
    if spec_has_key(vs, k) {
        spec_put(vs, k, v)
    } else {
        insert_desc(vs, k, v)
    }
}

/// A scan that stops at the first entry whose version precedes or equals `k`
/// finds the place where `insert_desc` inserts.
pub proof fn lemma_insert_desc_at<V>(vs: Seq<(Seq<char>, V)>, k: Seq<char>, v: V, i: int)
    requires
        0 <= i <= vs.len(),
        forall|j: int| 0 <= j < i ==> !version_le(vs[j].0, k),
        i < vs.len() ==> version_le(vs[i].0, k),
    ensures
        insert_desc(vs, k, v) == vs.insert(i, (k, v)),
    decreases vs.len(),
{
    if i == 0 {
        if vs.len() == 0 {
            assert(insert_desc(vs, k, v) =~= vs.insert(0, (k, v)));
        } else {
            assert(insert_desc(vs, k, v) =~= vs.insert(0, (k, v)));
        }
    } else {
        assert(!version_le(vs[0].0, k));
        let rest = vs.drop_first();
        assert forall|j: int| 0 <= j < i - 1 implies !version_le(rest[j].0, k) by {
            assert(rest[j] == vs[j + 1]);
        }
        if i - 1 < rest.len() {
            assert(rest[i - 1] == vs[i]);
        }
        lemma_insert_desc_at(rest, k, v, i - 1);
        assert(insert_desc(vs, k, v) =~= vs.insert(i, (k, v)));
    }
}

/// Place `(key, value)` in a descending version list, replacing any entry
/// with the same key in place. Uniqueness of keys and descending order are
/// preserved.
#[verifier::rlimit(80)]
pub fn insert_version_desc(
    versions: &mut Vec<(String, MinimalPackageVersionData)>,
    key: String,
    value: MinimalPackageVersionData,
)
    requires
        spec_unique_keys(kv_view(old(versions)@)),
        versions_sorted_desc(kv_view(old(versions)@)),
    ensures
        kv_view(final(versions)@) == sorted_put(kv_view(old(versions)@), key@, value@),
        spec_unique_keys(kv_view(final(versions)@)),
        versions_sorted_desc(kv_view(final(versions)@)),
        spec_get(kv_view(final(versions)@), key@) == Some(value@),
        forall|k2: Seq<char>| k2 != key@ ==> spec_get(kv_view(final(versions)@), k2) == spec_get(
            kv_view(old(versions)@),
            k2,
        ),
{
    let ghost vs = kv_view(versions@);
    let ghost vv = value@;
    let n = versions.len();
    let mut i: usize = 0;
    while i < n
        invariant
            versions@ == old(versions)@,
            i <= n,
            n == versions@.len(),
            vs == kv_view(versions@),
            vs.len() == versions@.len(),
            vv == value@,
            spec_unique_keys(vs),
            versions_sorted_desc(vs),
            forall|j: int| 0 <= j < versions@.len() ==> vs[j] == (versions@[j].0@, versions@[j].1@),
            forall|j: int| 0 <= j < i ==> vs[j].0 != key@,
        decreases n - i,
    {
        if str_eq(versions[i].0.as_str(), key.as_str()) {
            proof {
                lemma_key_index_is(vs, key@, i as int);
                lemma_put_get(vs, key@, vv);
            }
            versions.remove(i);
            versions.insert(i, (key, value));
            proof {
                lemma_kv_view_index(versions@);
                assert(vs[i as int].0 == key@);
                assert(spec_has_key(vs, key@));
                assert(kv_view(versions@) =~= spec_put(vs, key@, vv));
                assert forall|a: int|
                    0 <= a && a + 1 < kv_view(versions@).len() implies version_le(
                    kv_view(versions@)[a + 1].0,
                    (#[trigger] kv_view(versions@)[a]).0,
                ) by {
                    assert(kv_view(versions@)[a].0 == vs[a].0);
                    assert(kv_view(versions@)[a + 1].0 == vs[a + 1].0);
                }
            }
            return ;
        }
        i = i + 1;
    }
    proof {
        lemma_key_index(vs, key@);
    }
    // The key is new: find the first entry it precedes and insert before it.
    let mut pos: usize = 0;
    let mut found = false;
    while pos < n && !found
        invariant
            versions@ == old(versions)@,
            n == versions@.len(),
            pos <= n,
            vs == kv_view(versions@),
            vs.len() == versions@.len(),
            vv == value@,
            spec_unique_keys(vs),
            versions_sorted_desc(vs),
            !spec_has_key(vs, key@),
            forall|j: int| 0 <= j < versions@.len() ==> vs[j] == (versions@[j].0@, versions@[j].1@),
            forall|j: int| 0 <= j < pos ==> !version_le(vs[j].0, key@),
            forall|j: int| 0 <= j < pos ==> version_le(key@, vs[j].0),
            found ==> pos < n && version_le(vs[pos as int].0, key@),
        decreases n - pos, (if found { 0int } else { 1int }),
    {
        if version_le_exec(versions[pos].0.as_str(), key.as_str()) {
            found = true;
        } else {
            pos = pos + 1;
        }
    }
    proof {
        lemma_insert_desc_at(vs, key@, vv, pos as int);
    }
    versions.insert(pos, (key, value));
    proof {
        lemma_kv_view_index(versions@);
        assert(kv_view(versions@) =~= vs.insert(pos as int, (key@, vv)));
        lemma_insert_fresh(vs, key@, vv, pos as int);
    }
}

/// Inserting a fresh key at its sorted place keeps keys unique and the order
/// descending, stores the value under the key, and leaves every other key
/// reading as before.
pub proof fn lemma_insert_fresh<V>(vs: Seq<(Seq<char>, V)>, k: Seq<char>, v: V, pos: int)
    requires
        spec_unique_keys(vs),
        versions_sorted_desc(vs),
        !spec_has_key(vs, k),
        0 <= pos <= vs.len(),
        forall|j: int| 0 <= j < pos ==> version_le(k, vs[j].0),
        pos < vs.len() ==> version_le(vs[pos].0, k),
    ensures
        spec_unique_keys(vs.insert(pos, (k, v))),
        versions_sorted_desc(vs.insert(pos, (k, v))),
        spec_get(vs.insert(pos, (k, v)), k) == Some(v),
        forall|k2: Seq<char>| k2 != k ==> spec_get(vs.insert(pos, (k, v)), k2) == spec_get(
            vs,
            k2,
        ),
{
    let out = vs.insert(pos, (k, v));
    vs.insert_ensures(pos, (k, v));
    assert forall|a: int, b: int| 0 <= a < b < out.len() implies out[a].0 != out[b].0 by {
        if a == pos {
            assert(out[b] == vs[b - 1]);
        } else if b == pos {
            assert(out[a] == vs[a]);
        } else {
            let a0: int = if a < pos {
                a
            } else {
                a - 1
            };
            let b0: int = if b < pos {
                b
            } else {
                b - 1
            };
            assert(out[a] == vs[a0]);
            assert(out[b] == vs[b0]);
        }
    }
    assert forall|a: int| 0 <= a && a + 1 < out.len() implies version_le(
        out[a + 1].0,
        (#[trigger] out[a]).0,
    ) by {
        if a + 1 < pos {
            assert(out[a] == vs[a]);
            assert(out[a + 1] == vs[a + 1]);
        } else if a + 1 == pos {
            assert(out[a] == vs[a]);
        } else if a == pos {
            assert(out[a + 1] == vs[a]);
        } else {
            assert(out[a] == vs[a - 1]);
            assert(out[a + 1] == vs[a]);
        }
    }
    lemma_key_index(out, k);
    assert(out[pos].0 == k);
    assert forall|j: int| 0 <= j < pos implies out[j].0 != k by {
        assert(out[j] == vs[j]);
    }
    lemma_key_index_is(out, k, pos);
    assert forall|k2: Seq<char>| k2 != k implies spec_get(out, k2) == spec_get(vs, k2) by {
        lemma_key_index(vs, k2);
        lemma_key_index(out, k2);
        let j2 = spec_key_index(vs, k2);
        if j2 >= 0 {
            let jo: int = if j2 < pos {
                j2
            } else {
                j2 + 1
            };
            assert(out[jo] == vs[j2]);
            assert forall|j: int| 0 <= j < jo implies out[j].0 != k2 by {
                if j < pos {
                    assert(out[j] == vs[j]);
                } else if j == pos {
                } else {
                    assert(out[j] == vs[j - 1]);
                }
            }
            lemma_key_index_is(out, k2, jo);
        } else {
            if spec_key_index(out, k2) >= 0 {
                let jo = spec_key_index(out, k2);
                if jo < pos {
                    assert(out[jo] == vs[jo]);
                } else if jo == pos {
                } else {
                    assert(out[jo] == vs[jo - 1]);
                }
                assert(false);
            }
        }
    }
}

/// The dependencies of a raw version after ingestion: every key that also
/// appears among the optional dependencies is dropped.
pub open spec fn opt_kv(o: Option<Vec<(String, String)>>) -> Seq<(Seq<char>, Seq<char>)> {
    match o {
        Some(v) => kv_view(v@),
        None => Seq::empty(),
    }
}

/// What the store keeps of one raw document version: its tarball, and its
/// dependencies with the optional ones removed.
pub open spec fn clean_version(d: DocumentPackageVersion) -> VersionModel {
    VersionModel {
        tarball: d.dist.tarball@,
        dependencies: remove_keys(opt_kv(d.dependencies), opt_kv(d.optional_dependencies)),
    }
}

/// The version list that ingesting raw document entries in order builds.
pub open spec fn build_versions(raw: Seq<(String, DocumentPackageVersion)>) -> Seq<
    (Seq<char>, VersionModel),
>
    decreases raw.len(),
{
    if raw.len() == 0 {
        Seq::empty()
    } else {
        sorted_put(
            build_versions(raw.drop_last()),
            raw.last().0@,
            clean_version(raw.last().1),
        )
    }
}

/// What the store keeps of one metadata document version.
pub open spec fn meta_version_model(v: PackageVersion) -> VersionModel {
    VersionModel { tarball: v.dist.tarball@, dependencies: kv_view(v.dependencies@) }
}

/// The version list that ingesting metadata entries in order builds.
pub open spec fn build_meta_versions(raw: Seq<(String, PackageVersion)>) -> Seq<
    (Seq<char>, VersionModel),
>
    decreases raw.len(),
{
    if raw.len() == 0 {
        Seq::empty()
    } else {
        sorted_put(
            build_meta_versions(raw.drop_last()),
            raw.last().0@,
            meta_version_model(raw.last().1),
        )
    }
}

/// A raw version's dependency map with every optional-dependency key
/// removed.
fn clean_dependencies(
    dependencies: Option<Vec<(String, String)>>,
    optional: Option<Vec<(String, String)>>,
) -> (r: Vec<(String, String)>)
    ensures
        kv_view(r@) == remove_keys(opt_kv(dependencies), opt_kv(optional)),
{
    let ghost dv = opt_kv(dependencies);
    let ghost ov = opt_kv(optional);
    let mut deps = match dependencies {
        Some(d) => d,
        None => Vec::new(),
    };
    let opts = match optional {
        Some(d) => d,
        None => Vec::new(),
    };
    proof {
        assert(dv =~= kv_view(deps@));
        assert(ov =~= kv_view(opts@));
        assert(ov.skip(0) =~= ov);
    }
    let n = opts.len();
    let mut i: usize = 0;
    while i < n
        invariant
            i <= n,
            n == opts@.len(),
            ov == kv_view(opts@),
            ov.len() == opts@.len(),
            forall|j: int| 0 <= j < opts@.len() ==> ov[j] == (opts@[j].0@, opts@[j].1@),
            remove_keys(dv, ov) == remove_keys(kv_view(deps@), ov.skip(i as int)),
        decreases n - i,
    {
        let ghost pre = kv_view(deps@);
        map_del(&mut deps, opts[i].0.as_str());
        proof {
            assert(ov.skip(i as int).drop_first() =~= ov.skip(i + 1));
            assert(ov.skip(i as int)[0] == ov[i as int]);
            assert(remove_keys(pre, ov.skip(i as int)) == remove_keys(
                spec_del(pre, ov[i as int].0),
                ov.skip(i + 1),
            ));
        }
        i = i + 1;
    }
    proof {
        assert(ov.skip(n as int) =~= Seq::<(Seq<char>, Seq<char>)>::empty());
    }
    deps
}

impl MinimalPackageData {
    /// Translate a change-feed document into the stored record: optional
    /// dependencies are dropped, versions are placed in descending
    /// precedence order, and the refresh time is recorded.
    pub fn from_doc(raw: RegistryDocument, now: u64) -> (r: MinimalPackageData)
        ensures
            r@.name == raw.id@,
            r@.dist_tags == opt_kv(raw.dist_tags),
            r@.versions == build_versions(
                match raw.versions {
                    Some(v) => v@,
                    None => Seq::empty(),
                },
            ),
            r@.last_updated == Some(now),
            r.wf(),
    {
        let ghost gv: Seq<(String, DocumentPackageVersion)> = match &raw.versions {
            Some(v) => v@,
            None => Seq::empty(),
        };
        let RegistryDocument { id, deleted: _, dist_tags, versions } = raw;
        let dist_tags = match dist_tags {
            Some(t) => t,
            None => Vec::new(),
        };
        let mut raw_versions = match versions {
            Some(v) => v,
            None => Vec::new(),
        };
        let mut vers: Vec<(String, MinimalPackageVersionData)> = Vec::new();
        let ghost total = gv.len();
        let ghost mut i: int = 0;
        proof {
            assert(gv.skip(0) =~= gv);
            assert(gv.take(0) =~= Seq::<(String, DocumentPackageVersion)>::empty());
        }
        while raw_versions.len() > 0
            invariant
                0 <= i,
                i + raw_versions@.len() == gv.len(),
                raw_versions@ == gv.skip(i),
                kv_view(vers@) == build_versions(gv.take(i)),
                spec_unique_keys(kv_view(vers@)),
                versions_sorted_desc(kv_view(vers@)),
            decreases raw_versions.len(),
        {
            let (key, value) = raw_versions.remove(0);
            proof {
                assert(gv.take(i + 1).drop_last() =~= gv.take(i));
                assert(gv.take(i + 1).last() == gv[i]);
            }
            let DocumentPackageVersion { dependencies, optional_dependencies, dist } = value;
            let deps = clean_dependencies(dependencies, optional_dependencies);
            let mvd = MinimalPackageVersionData { tarball: dist.tarball, dependencies: deps };
            proof {
                assert(mvd@ == clean_version(gv[i].1));
            }
            insert_version_desc(&mut vers, key, mvd);
            proof {
                i = i + 1;
                assert(raw_versions@ =~= gv.skip(i));
            }
        }
        proof {
            assert(gv.take(total as int) =~= gv);
        }
        MinimalPackageData { name: id, dist_tags, versions: vers, last_updated: Some(now) }
    }

    /// Translate an on-demand metadata document into the stored record, with
    /// versions in descending precedence order and the refresh time
    /// recorded.
    pub fn from_registry_meta(raw: PackageMetadata, now: u64) -> (r: MinimalPackageData)
        ensures
            r@.name == raw.name@,
            r@.dist_tags == opt_kv(raw.dist_tags),
            r@.versions == build_meta_versions(
                match raw.versions {
                    Some(v) => v@,
                    None => Seq::empty(),
                },
            ),
            r@.last_updated == Some(now),
            r.wf(),
    {
        let ghost gv: Seq<(String, PackageVersion)> = match &raw.versions {
            Some(v) => v@,
            None => Seq::empty(),
        };
        let PackageMetadata { name, dist_tags, versions } = raw;
        let dist_tags = match dist_tags {
            Some(t) => t,
            None => Vec::new(),
        };
        let mut raw_versions = match versions {
            Some(v) => v,
            None => Vec::new(),
        };
        let mut vers: Vec<(String, MinimalPackageVersionData)> = Vec::new();
        let ghost total = gv.len();
        let ghost mut i: int = 0;
        proof {
            assert(gv.skip(0) =~= gv);
            assert(gv.take(0) =~= Seq::<(String, PackageVersion)>::empty());
        }
        while raw_versions.len() > 0
            invariant
                0 <= i,
                i + raw_versions@.len() == gv.len(),
                raw_versions@ == gv.skip(i),
                kv_view(vers@) == build_meta_versions(gv.take(i)),
                spec_unique_keys(kv_view(vers@)),
                versions_sorted_desc(kv_view(vers@)),
            decreases raw_versions.len(),
        {
            let (key, value) = raw_versions.remove(0);
            proof {
                assert(gv.take(i + 1).drop_last() =~= gv.take(i));
                assert(gv.take(i + 1).last() == gv[i]);
            }
            let PackageVersion { dist, dependencies } = value;
            let mvd = MinimalPackageVersionData { tarball: dist.tarball, dependencies };
            proof {
                assert(mvd@ == meta_version_model(gv[i].1));
            }
            insert_version_desc(&mut vers, key, mvd);
            proof {
                i = i + 1;
                assert(raw_versions@ =~= gv.skip(i));
            }
        }
        proof {
            assert(gv.take(total as int) =~= gv);
        }
        MinimalPackageData { name, dist_tags, versions: vers, last_updated: Some(now) }
    }
}

impl MinimalPackageData {
    /// The tarball location of one exact version of this package; a version
    /// the record does not hold is a distinct error naming package and
    /// version.
    pub fn tarball_for_version(&self, version: &str) -> (r: Result<&String, crate::errors::ServerError>)
        ensures
            match r {
                Ok(t) => spec_get(self@.versions, version@) matches Some(v) && v.tarball == t@,
                Err(e) => !spec_has_key(self@.versions, version@) && (e matches
                    crate::errors::ServerError::PackageVersionNotFound(n, v2) && n@ == self.name@
                    && v2@ == version@),
            },
    {
        match crate::kvlist::map_get(&self.versions, version) {
            Some(data) => Ok(&data.tarball),
            None => Err(
                crate::errors::ServerError::PackageVersionNotFound(
                    crate::textutil::str_to_string(self.name.as_str()),
                    crate::textutil::str_to_string(version),
                ),
            ),
        }
    }
}

} // verus!
