use vstd::prelude::*;

use crate::errors::ServerError;
use crate::kvlist::kv_view;
use crate::package_data::PackageDist;
use crate::textutil::str_to_string;
use vstd::string::StrSliceExecFns;
use vstd::string::StringExecFns;

verus! {

/// A package manifest as the registry serves it: dist-tags, and per version
/// the distribution block.
pub struct PackageManifest {
    pub name: String,
    pub dist_tags: Vec<(String, String)>,
    pub versions: Vec<(String, PackageDist)>,
}

/// The manifest as the cache stores it: versions slimmed to their tarball
/// locations, with the validator tag and the fetch time.
pub struct CachedPackageManifest {
    pub name: String,
    pub dist_tags: Vec<(String, String)>,
    pub versions: Vec<(String, String)>,
    pub etag: Option<String>,
    pub fetched_at: u64,
}

impl CachedPackageManifest {
    /// Slim a downloaded manifest for the cache: each version keeps only
    /// its tarball location.
    pub fn from_manifest(manifest: PackageManifest, etag: Option<String>, now: u64) -> (r:
        CachedPackageManifest)
        ensures
            r.name@ == manifest.name@,
            kv_view(r.dist_tags@) == kv_view(manifest.dist_tags@),
            kv_view(r.versions@) == manifest.versions@.map_values(
                |p: (String, PackageDist)| (p.0@, p.1.tarball@),
            ),
            r.etag == etag,
            r.fetched_at == now,
    {
        let ghost target = manifest.versions@.map_values(
            |p: (String, PackageDist)| (p.0@, p.1.tarball@),
        );
        let mut versions: Vec<(String, String)> = Vec::new();
        let n = manifest.versions.len();
        let mut i: usize = 0;
        while i < n
            invariant
                i <= n,
                n == manifest.versions@.len(),
                target == manifest.versions@.map_values(
                    |p: (String, PackageDist)| (p.0@, p.1.tarball@),
                ),
                target.len() == n,
                forall|j: int| 0 <= j < n ==> target[j] == (
                    manifest.versions@[j].0@,
                    manifest.versions@[j].1.tarball@,
                ),
                versions@.len() == i,
                forall|j: int| 0 <= j < i ==> (versions@[j].0@, versions@[j].1@) == target[j],
            decreases n - i,
        {
            let key = str_to_string(manifest.versions[i].0.as_str());
            let val = str_to_string(manifest.versions[i].1.tarball.as_str());
            versions.push((key, val));
            i = i + 1;
        }
        proof {
            crate::kvlist::lemma_kv_view_index(versions@);
            assert(kv_view(versions@) =~= target);
        }
        CachedPackageManifest {
            name: manifest.name,
            dist_tags: manifest.dist_tags,
            versions,
            etag,
            fetched_at: now,
        }
    }

    /// Whether the cached manifest is younger than fifteen minutes: such a
    /// manifest is served without asking the origin again.
    pub fn is_fresh(&self, now: u64) -> (r: bool)
        ensures
            r == (now < self.fetched_at + 900),
    {
        if now >= self.fetched_at {
            now - self.fetched_at < 900
        } else {
            true
        }
    }
}

/// Whether a stored package record warrants an on-demand origin fetch: the
/// package is unknown, the record carries no refresh time, or the refresh
/// is older than sixty seconds.
pub fn should_fetch_package(found: bool, last_updated: Option<u64>, now: u64) -> (r: bool)
    ensures
        r == (!found || last_updated is None || now > last_updated->0 + 60),
{
    if !found {
        true
    } else {
        match last_updated {
            None => true,
            Some(lu) => now > 60 && now - 60 > lu,
        }
    }
}

/// What the resolve retry loop does with a failed resolution: a missing
/// package or version is fetched once and the resolution retried; the same
/// package failing twice in a row gives up as not found; any other error
/// gives up as it stands. An empty package name retries without a fetch.
pub enum RetryDecision {
    FetchAndRetry(String),
    RetryPlain,
    GiveUp(ServerError),
}

impl RetryDecision {
    /// Decide from the error of the last attempt and the package that the
    /// previous attempt fetched.
    pub fn from_error(err: ServerError, last_failed: &Option<String>) -> (r: RetryDecision)
        ensures
            match err {
                ServerError::PackageNotFound(name) => spec_retry_for(name@, *last_failed) == r@,
                ServerError::PackageVersionNotFound(name, _) => spec_retry_for(name@, *last_failed)
                    == r@,
                _ => r matches RetryDecision::GiveUp(e2) && e2 == err,
            },
{
        match err {
            ServerError::PackageNotFound(name) => retry_for(name, last_failed),
            ServerError::PackageVersionNotFound(name, _) => retry_for(name, last_failed),
            other => RetryDecision::GiveUp(other),
        }
    }
}

/// The reading of a retry decision.
pub enum RetryModel {
    FetchAndRetry(Seq<char>),
    RetryPlain,
    GiveUpNotFound(Seq<char>),
    GiveUpOther,
}

impl View for RetryDecision {
    type V = RetryModel;

    open spec fn view(&self) -> RetryModel {
        match self {
            RetryDecision::FetchAndRetry(n) => RetryModel::FetchAndRetry(n@),
            RetryDecision::RetryPlain => RetryModel::RetryPlain,
            RetryDecision::GiveUp(e) => match e {
                ServerError::PackageNotFound(n) => RetryModel::GiveUpNotFound(n@),
                _ => RetryModel::GiveUpOther,
            },
        }
    }
}

/// How a failed package name is retried: fetch it and retry, unless it is
/// empty (plain retry) or it already failed last time (give up not found).
pub open spec fn spec_retry_for(name: Seq<char>, last_failed: Option<String>) -> RetryModel {
    if name.len() == 0 {
        RetryModel::RetryPlain
    } else {
        match last_failed {
            Some(prev) => if prev@ == name {
                RetryModel::GiveUpNotFound(name)
            } else {
                RetryModel::FetchAndRetry(name)
            },
            None => RetryModel::FetchAndRetry(name),
        }
    }
}

/// Decide the retry for one failed package name.
fn retry_for(name: String, last_failed: &Option<String>) -> (r: RetryDecision)
    ensures
        r@ == spec_retry_for(name@, *last_failed),
{
    if name.as_str().unicode_len() == 0 {
        return RetryDecision::RetryPlain;
    }
    match last_failed {
        Some(prev) => {
            if crate::textutil::str_eq(prev.as_str(), name.as_str()) {
                RetryDecision::GiveUp(ServerError::PackageNotFound(name))
            } else {
                RetryDecision::FetchAndRetry(name)
            }
        },
        None => RetryDecision::FetchAndRetry(name),
    }
}

} // verus!
