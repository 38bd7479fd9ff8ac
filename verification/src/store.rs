use vstd::prelude::*;

use crate::errors::ServerError;
use crate::kvlist::kv_view;
use crate::kvlist::lemma_del_get;
use crate::kvlist::lemma_key_index;
use crate::kvlist::lemma_kv_view_index;
use crate::kvlist::lemma_put_get;
use crate::kvlist::map_del;
use crate::kvlist::map_get;
use crate::kvlist::map_put;
use crate::kvlist::spec_del;
use crate::kvlist::spec_get;
use crate::kvlist::spec_has_key;
use crate::kvlist::spec_key_index;
use crate::kvlist::spec_put;
use crate::kvlist::spec_unique_keys;
use crate::package_data::MinimalPackageData;
use crate::package_data::PackageModel;
use crate::package_data::versions_sorted_desc;
use crate::textutil::str_to_string;

verus! {

/// A stored package record is well-formed: version keys unique and in
/// descending precedence order.
pub open spec fn pkg_wf(p: PackageModel) -> bool {
    spec_unique_keys(p.versions) && versions_sorted_desc(p.versions)
}

/// The local mirror of the registry: per-package records keyed by package
/// name, and the replication cursor. The persistent engine and the LRU in
/// front of it live outside the library; this is the state both must agree
/// on.
pub struct RegistryStore {
    pub packages: Vec<(String, MinimalPackageData)>,
    pub last_seq: i64,
}

/// The mathematical reading of the store.
pub struct StoreModel {
    pub packages: Seq<(Seq<char>, PackageModel)>,
    pub last_seq: i64,
}

impl View for RegistryStore {
    type V = StoreModel;

    open spec fn view(&self) -> StoreModel {
        StoreModel { packages: kv_view(self.packages@), last_seq: self.last_seq }
    }
}

/// Every stored record is filed under its own name, holds at least one
/// version, and is well-formed; no name is filed twice.
pub open spec fn store_wf(m: Seq<(Seq<char>, PackageModel)>) -> bool {
    spec_unique_keys(m) && forall|i: int|
        0 <= i < m.len() ==> {
            let e = #[trigger] m[i];
            e.1.name == e.0 && e.1.versions.len() > 0 && pkg_wf(e.1)
        }
}

impl RegistryStore {
    /// Well-formed: see `store_wf`.
    pub open spec fn wf(&self) -> bool {
        store_wf(self@.packages)
    }

    /// An empty store with the cursor at zero.
    pub fn new() -> (r: RegistryStore)
        ensures
            r@.packages == Seq::<(Seq<char>, PackageModel)>::empty(),
            r@.last_seq == 0,
            r.wf(),
    {
        let r = RegistryStore { packages: Vec::new(), last_seq: 0 };
        proof {
            assert(r@.packages =~= Seq::<(Seq<char>, PackageModel)>::empty());
        }
        r
    }

    /// The replication cursor.
    pub fn get_last_seq(&self) -> (r: i64)
        ensures
            r == self@.last_seq,
    {
        self.last_seq
    }

    /// Advance (or rewind) the replication cursor; the packages stay.
    pub fn update_last_seq(&mut self, next_seq: i64)
        ensures
            final(self)@.last_seq == next_seq,
            final(self)@.packages == old(self)@.packages,
    {
        self.last_seq = next_seq;
    }

    /// The record stored for `pkg_name`; a missing key is a distinct error,
    /// never an empty record.
    pub fn get_package(&self, pkg_name: &str) -> (r: Result<&MinimalPackageData, ServerError>)
        ensures
            match r {
                Ok(p) => spec_get(self@.packages, pkg_name@) == Some(p@),
                Err(e) => !spec_has_key(self@.packages, pkg_name@) && (e matches
                    ServerError::PackageNotFound(n) && n@ == pkg_name@),
            },
    {
        match map_get(&self.packages, pkg_name) {
            Some(p) => Ok(p),
            None => Err(ServerError::PackageNotFound(str_to_string(pkg_name))),
        }
    }

    /// Remove `pkg_name` from the store; the cursor stays.
    pub fn delete_package(&mut self, pkg_name: &str)
        requires
            old(self).wf(),
        ensures
            final(self)@.packages == spec_del(old(self)@.packages, pkg_name@),
            final(self)@.last_seq == old(self)@.last_seq,
            final(self).wf(),
            !spec_has_key(final(self)@.packages, pkg_name@),
            forall|k2: Seq<char>| k2 != pkg_name@ ==> spec_get(final(self)@.packages, k2)
                == spec_get(old(self)@.packages, k2),
    {
        let ghost m = self@.packages;
        map_del(&mut self.packages, pkg_name);
        proof {
            lemma_del_get(m, pkg_name@);
            lemma_key_index(m, pkg_name@);
            let out = self@.packages;
            let i = spec_key_index(m, pkg_name@);
            if i >= 0 {
                assert forall|j: int| 0 <= j < out.len() implies (#[trigger] out[j]).1.name
                    == out[j].0 && out[j].1.versions.len() > 0 && pkg_wf(out[j].1) by {
                    if j < i {
                        assert(out[j] == m[j]);
                    } else {
                        assert(out[j] == m[j + 1]);
                    }
                }
            }
        }
    }

    /// Store a record under its name. A record without versions must not be
    /// stored: the name is deleted instead.
    pub fn write_package(&mut self, pkg: MinimalPackageData)
        requires
            old(self).wf(),
            spec_unique_keys(pkg@.versions),
            versions_sorted_desc(pkg@.versions),
        ensures
            final(self)@.last_seq == old(self)@.last_seq,
            final(self).wf(),
            pkg@.versions.len() == 0 ==> final(self)@.packages == spec_del(
                old(self)@.packages,
                pkg@.name,
            ),
            pkg@.versions.len() > 0 ==> final(self)@.packages == spec_put(
                old(self)@.packages,
                pkg@.name,
                pkg@,
            ),
            pkg@.versions.len() > 0 ==> spec_get(final(self)@.packages, pkg@.name) == Some(pkg@),
            pkg@.versions.len() == 0 ==> !spec_has_key(final(self)@.packages, pkg@.name),
            forall|k2: Seq<char>| k2 != pkg@.name ==> spec_get(final(self)@.packages, k2)
                == spec_get(old(self)@.packages, k2),
    {
        let ghost m = self@.packages;
        if pkg.versions.len() == 0 {
            let name = pkg.name;
            self.delete_package(name.as_str());
            return ;
        }
        proof {
            lemma_put_get(m, pkg@.name, pkg@);
            lemma_key_index(m, pkg@.name);
        }
        let name = str_to_string(pkg.name.as_str());
        map_put(&mut self.packages, name, pkg);
        proof {
            let out = self@.packages;
            let i = spec_key_index(m, pkg@.name);
            assert forall|j: int| 0 <= j < out.len() implies (#[trigger] out[j]).1.name == out[j].0
                && out[j].1.versions.len() > 0 && pkg_wf(out[j].1) by {
                if i >= 0 {
                    if j != i {
                        assert(out[j] == m[j]);
                    }
                } else {
                    if j + 1 < out.len() {
                        assert(out[j] == m[j]);
                    }
                }
            }
        }
    }

    /// The stored package names, in store order.
    pub fn list_packages(&self) -> (r: Vec<String>)
        ensures
            r@.map_values(|s: String| s@) == self@.packages.map_values(
                |e: (Seq<char>, PackageModel)| e.0,
            ),
    {
        let mut out: Vec<String> = Vec::new();
        let n = self.packages.len();
        let mut i: usize = 0;
        proof {
            lemma_kv_view_index(self.packages@);
        }
        while i < n
            invariant
                i <= n,
                n == self.packages@.len(),
                self@.packages.len() == n,
                forall|j: int| 0 <= j < n ==> self@.packages[j] == (
                    self.packages@[j].0@,
                    self.packages@[j].1@,
                ),
                out@.len() == i,
                forall|j: int| 0 <= j < i ==> out@[j]@ == self@.packages[j].0,
            decreases n - i,
        {
            out.push(str_to_string(self.packages[i].0.as_str()));
            i = i + 1;
        }
        proof {
            assert(out@.map_values(|s: String| s@) =~= self@.packages.map_values(
                |e: (Seq<char>, PackageModel)| e.0,
            ));
        }
        out
    }
}

/// Writing the same record twice leaves the same store as writing it once:
/// the second write is semantically a no-op, and a read afterwards returns
/// the record either way.
pub proof fn lemma_write_twice_is_once(
    m: Seq<(Seq<char>, PackageModel)>,
    k: Seq<char>,
    pkg: PackageModel,
)
    requires
        spec_unique_keys(m),
    ensures
        spec_put(spec_put(m, k, pkg), k, pkg) == spec_put(m, k, pkg),
        spec_get(spec_put(spec_put(m, k, pkg), k, pkg), k) == spec_get(spec_put(m, k, pkg), k),
{
    lemma_put_get(m, k, pkg);
    let once = spec_put(m, k, pkg);
    lemma_put_get(once, k, pkg);
    lemma_key_index(once, k);
    let i = spec_key_index(once, k);
    assert(once[i] == (k, pkg));
    assert(spec_put(once, k, pkg) =~= once);
}

/// Every record a well-formed store returns has at least one version: a
/// write with no versions deletes the key instead of storing it.
pub proof fn lemma_stored_versions_nonempty(m: Seq<(Seq<char>, PackageModel)>, k: Seq<char>)
    requires
        store_wf(m),
    ensures
        match spec_get(m, k) {
            Some(p) => p.versions.len() > 0,
            None => true,
        },
{
    lemma_key_index(m, k);
}

} // verus!
