use std::io::Write;

use sandpack_cdn::dep_tree::DepRange;
use sandpack_cdn::dep_tree::DepRequest;
use sandpack_cdn::dep_tree::DepTreeBuilder;
use sandpack_cdn::errors::ServerError;
use sandpack_cdn::package_data::DocumentPackageDist;
use sandpack_cdn::package_data::DocumentPackageVersion;
use sandpack_cdn::package_data::MinimalPackageData;
use sandpack_cdn::package_data::RegistryDocument;
use sandpack_cdn::replication::apply_page;
use sandpack_cdn::replication::ChangeEvent;
use sandpack_cdn::replication::ChangesPage;
use sandpack_cdn::replication::Event;
use sandpack_cdn::single_flight::CacheDecision;
use sandpack_cdn::single_flight::Cached;
use sandpack_cdn::store::RegistryStore;
use sandpack_cdn::tarball::decode_tarball;
use sandpack_cdn::tarball::TarballType;
use sandpack_cdn::tarball::tarball_type_for;

fn version(tarball: &str, deps: Vec<(&str, &str)>) -> DocumentPackageVersion {
    let mut dependencies: Vec<(String, String)> = Vec::new();
    for (k, v) in deps {
        dependencies.push((String::from(k), String::from(v)));
    }
    DocumentPackageVersion {
        dependencies: Some(dependencies),
        optional_dependencies: None,
        dist: DocumentPackageDist {
            tarball: String::from(tarball),
        },
    }
}

fn doc(
    id: &str,
    tags: Vec<(&str, &str)>,
    versions: Vec<(&str, DocumentPackageVersion)>,
) -> RegistryDocument {
    let mut dist_tags: Vec<(String, String)> = Vec::new();
    for (k, v) in tags {
        dist_tags.push((String::from(k), String::from(v)));
    }
    let mut vs: Vec<(String, DocumentPackageVersion)> = Vec::new();
    for (k, v) in versions {
        vs.push((String::from(k), v));
    }
    RegistryDocument {
        id: String::from(id),
        deleted: false,
        dist_tags: Some(dist_tags),
        versions: Some(vs),
    }
}

fn lookup<'a>(map: &'a Vec<(String, String)>, key: &str) -> Option<&'a str> {
    for (k, v) in map {
        if k == key {
            return Some(v.as_str());
        }
    }
    None
}

#[test]
fn store_rejects_empty_versions() {
    let mut store = RegistryStore::new();
    let record = MinimalPackageData::from_doc(doc("empty-pkg", vec![], vec![]), 1000);
    store.write_package(record);
    assert!(matches!(
        store.get_package("empty-pkg"),
        Err(ServerError::PackageNotFound(_))
    ));
}

#[test]
fn store_write_twice_same_result() {
    let mut store = RegistryStore::new();
    let make = || {
        MinimalPackageData::from_doc(
            doc(
                "react",
                vec![("latest", "17.0.2")],
                vec![("17.0.2", version("https://r/react-17.0.2.tgz", vec![]))],
            ),
            1000,
        )
    };
    store.write_package(make());
    let first_tags = store.get_package("react").unwrap().dist_tags.clone();
    let first_len = store.get_package("react").unwrap().versions.len();
    store.write_package(make());
    let again = store.get_package("react").unwrap();
    assert_eq!(again.dist_tags, first_tags);
    assert_eq!(again.versions.len(), first_len);
    assert_eq!(store.list_packages(), vec!["react"]);
}

#[test]
fn optional_dependencies_are_dropped() {
    let mut v = version("https://r/a-1.0.0.tgz", vec![("b", "^2"), ("c", "^1")]);
    let mut optional: Vec<(String, String)> = Vec::new();
    optional.push((String::from("c"), String::from("^1")));
    v.optional_dependencies = Some(optional);
    let record = MinimalPackageData::from_doc(doc("a", vec![], vec![("1.0.0", v)]), 0);
    assert_eq!(record.versions.len(), 1);
    let deps = &record.versions[0].1.dependencies;
    assert_eq!(deps.len(), 1);
    assert_eq!(deps[0].0, "b");
}

fn store_with(docs: Vec<RegistryDocument>) -> RegistryStore {
    let mut store = RegistryStore::new();
    for d in docs {
        store.write_package(MinimalPackageData::from_doc(d, 1000));
    }
    store
}

#[test]
fn resolve_simple_range() {
    let store = store_with(vec![doc(
        "react",
        vec![],
        vec![
            ("17.0.0", version("https://r/react-17.0.0.tgz", vec![])),
            ("17.0.2", version("https://r/react-17.0.2.tgz", vec![])),
        ],
    )]);
    let mut builder = DepTreeBuilder::new(store);
    let req = DepRequest::from_name_version(String::from("react"), String::from("^17")).unwrap();
    builder.resolve_tree(vec![req]).unwrap();
    assert_eq!(builder.resolutions.len(), 1);
    assert_eq!(lookup(&builder.resolutions, "react@17"), Some("17.0.2"));
    assert_eq!(builder.aliases.len(), 0);
}

#[test]
fn resolve_dist_tag() {
    let store = store_with(vec![doc(
        "react",
        vec![("latest", "18.2.0")],
        vec![
            ("17.0.2", version("https://r/react-17.0.2.tgz", vec![])),
            ("18.2.0", version("https://r/react-18.2.0.tgz", vec![])),
        ],
    )]);
    let mut builder = DepTreeBuilder::new(store);
    let req = DepRequest::from_name_version(String::from("react"), String::from("latest")).unwrap();
    builder.resolve_tree(vec![req]).unwrap();
    assert_eq!(lookup(&builder.resolutions, "react@18"), Some("18.2.0"));
    assert_eq!(lookup(&builder.aliases, "react@latest"), Some("react@18"));
}

#[test]
fn resolve_transitive() {
    let store = store_with(vec![
        doc(
            "a",
            vec![],
            vec![("1.0.0", version("https://r/a-1.0.0.tgz", vec![("b", "^2")]))],
        ),
        doc(
            "b",
            vec![],
            vec![("2.1.0", version("https://r/b-2.1.0.tgz", vec![]))],
        ),
    ]);
    let mut builder = DepTreeBuilder::new(store);
    let req = DepRequest::from_name_version(String::from("a"), String::from("^1")).unwrap();
    builder.resolve_tree(vec![req]).unwrap();
    assert_eq!(lookup(&builder.resolutions, "a@1"), Some("1.0.0"));
    assert_eq!(lookup(&builder.resolutions, "b@2"), Some("2.1.0"));
}

#[test]
fn resolve_major_collision_keeps_max() {
    let store = store_with(vec![doc(
        "b",
        vec![],
        vec![
            ("2.1.0", version("https://r/b-2.1.0.tgz", vec![])),
            ("2.3.0", version("https://r/b-2.3.0.tgz", vec![])),
        ],
    )]);
    let mut builder = DepTreeBuilder::new(store);
    let one = DepRequest::from_name_version(String::from("b"), String::from("^2")).unwrap();
    let two = DepRequest::from_name_version(String::from("b"), String::from("^2")).unwrap();
    builder.resolve_tree(vec![one, two]).unwrap();
    assert_eq!(builder.resolutions.len(), 1);
    assert_eq!(lookup(&builder.resolutions, "b@2"), Some("2.3.0"));
}

#[test]
fn resolution_keeps_highest_version_per_major() {
    let store = store_with(vec![doc(
        "b",
        vec![],
        vec![
            ("2.1.0", version("https://r/b-2.1.0.tgz", vec![])),
            ("2.3.0", version("https://r/b-2.3.0.tgz", vec![])),
        ],
    )]);
    let mut builder = DepTreeBuilder::new(store);
    let low = DepRequest::from_name_version(String::from("b"), String::from("2.1.0")).unwrap();
    let high = DepRequest::from_name_version(String::from("b"), String::from("2.3.0")).unwrap();
    builder.resolve_tree(vec![low, high]).unwrap();
    assert_eq!(builder.resolutions.len(), 1);
    assert_eq!(lookup(&builder.resolutions, "b@2"), Some("2.3.0"));
}

#[test]
fn resolve_missing_package_fails() {
    let store = store_with(vec![]);
    let mut builder = DepTreeBuilder::new(store);
    let req = DepRequest::from_name_version(String::from("ghost"), String::from("^1")).unwrap();
    let r = builder.resolve_tree(vec![req]);
    assert!(matches!(r, Err(ServerError::PackageNotFound(_))));
}

#[test]
fn resolve_missing_version_fails() {
    let store = store_with(vec![doc(
        "react",
        vec![],
        vec![("17.0.2", version("https://r/react-17.0.2.tgz", vec![]))],
    )]);
    let mut builder = DepTreeBuilder::new(store);
    let req = DepRequest::from_name_version(String::from("react"), String::from("^18")).unwrap();
    let r = builder.resolve_tree(vec![req]);
    assert!(matches!(r, Err(ServerError::PackageVersionNotFound(_, _))));
}

#[test]
fn npm_alias_redirects() {
    let req =
        DepRequest::from_name_version(String::from("react"), String::from("npm:preact@^10"))
            .unwrap();
    assert_eq!(req.name, "preact");
    assert!(matches!(req.range, DepRange::Range(ref r) if r == "^10"));
}

#[test]
fn aliases_expand_into_resolutions() {
    let store = store_with(vec![doc(
        "react",
        vec![("latest", "18.2.0")],
        vec![("18.2.0", version("https://r/react-18.2.0.tgz", vec![]))],
    )]);
    let mut builder = DepTreeBuilder::new(store);
    let req = DepRequest::from_name_version(String::from("react"), String::from("latest")).unwrap();
    builder.resolve_tree(vec![req]).unwrap();
    let mut resolutions = builder.resolutions;
    sandpack_cdn::envelope::expand_aliases(&mut resolutions, &builder.aliases);
    assert_eq!(lookup(&resolutions, "react@18"), Some("18.2.0"));
    assert_eq!(lookup(&resolutions, "react@latest"), Some("18.2.0"));
}

#[test]
fn tarball_location_lookup() {
    let record = MinimalPackageData::from_doc(
        doc(
            "react",
            vec![],
            vec![("17.0.2", version("https://r/react-17.0.2.tgz", vec![]))],
        ),
        0,
    );
    assert_eq!(
        record.tarball_for_version("17.0.2").unwrap(),
        "https://r/react-17.0.2.tgz"
    );
    assert!(matches!(
        record.tarball_for_version("9.9.9"),
        Err(ServerError::PackageVersionNotFound(_, _))
    ));
}

fn change(id: &str, deleted: bool, document: Option<RegistryDocument>) -> Event {
    Event::Change(ChangeEvent {
        id: String::from(id),
        changes: Vec::new(),
        deleted,
        doc: document,
    })
}

#[test]
fn replay_same_page_same_terminal_state() {
    let page = || ChangesPage {
        results: vec![
            change(
                "react",
                false,
                Some(doc(
                    "react",
                    vec![("latest", "17.0.2")],
                    vec![("17.0.2", version("https://r/react-17.0.2.tgz", vec![]))],
                )),
            ),
            change("gone", true, None),
        ],
        last_seq: 42,
    };
    let mut once = RegistryStore::new();
    apply_page(&mut once, page(), 1000);
    let mut twice = RegistryStore::new();
    apply_page(&mut twice, page(), 1000);
    apply_page(&mut twice, page(), 1000);
    assert_eq!(once.get_last_seq(), 42);
    assert_eq!(twice.get_last_seq(), 42);
    assert_eq!(once.list_packages(), twice.list_packages());
    let a = once.get_package("react").unwrap();
    let b = twice.get_package("react").unwrap();
    assert_eq!(a.name, b.name);
    assert_eq!(a.dist_tags, b.dist_tags);
    assert_eq!(a.versions.len(), b.versions.len());
}

#[test]
fn change_feed_query_parameters() {
    let params = sandpack_cdn::replication::change_feed_params(50, 1234);
    assert_eq!(params.len(), 5);
    assert_eq!(params[0], (String::from("feed"), String::from("longpoll")));
    assert_eq!(
        params[1],
        (String::from("include_docs"), String::from("true"))
    );
    assert_eq!(params[2], (String::from("timeout"), String::from("60000")));
    assert_eq!(params[3], (String::from("limit"), String::from("50")));
    assert_eq!(params[4], (String::from("since"), String::from("1234")));
    let negative = sandpack_cdn::replication::change_feed_params(50, -7);
    assert_eq!(negative[4].1, "-7");
}

#[test]
fn feed_waits_only_when_caught_up() {
    assert!(sandpack_cdn::replication::should_wait(50, 10));
    assert!(!sandpack_cdn::replication::should_wait(50, 25));
}

fn tar_archive(entries: Vec<(&str, &[u8])>) -> Vec<u8> {
    let mut builder = tar::Builder::new(Vec::new());
    for (name, content) in entries {
        let mut header = tar::Header::new_gnu();
        header.set_size(content.len() as u64);
        header.set_mode(0o644);
        header.set_cksum();
        builder.append_data(&mut header, name, content).unwrap();
    }
    builder.into_inner().unwrap()
}

fn gzip(bytes: &[u8]) -> Vec<u8> {
    let mut encoder = flate2::write::GzEncoder::new(Vec::new(), flate2::Compression::default());
    encoder.write_all(bytes).unwrap();
    encoder.finish().unwrap()
}

fn keys_of(files: &Vec<(String, Vec<u8>)>) -> Vec<String> {
    let mut out: Vec<String> = files.iter().map(|p| p.0.clone()).collect();
    out.sort();
    out
}

#[test]
fn tgz_url_opens_as_gzip_tar() {
    let tar_bytes = tar_archive(vec![
        ("package/index.js", b"module.exports = 1;"),
        ("package/README.md", b"# hi"),
    ]);
    let gz = gzip(&tar_bytes);
    let files = decode_tarball("https://r/react-17.0.2.tgz", &gz).unwrap();
    assert_eq!(keys_of(&files), vec!["/README.md", "/index.js"]);
}

#[test]
fn tar_url_opens_ungzipped() {
    let tar_bytes = tar_archive(vec![("package/index.js", b"module.exports = 1;")]);
    let files = decode_tarball("https://r/react-17.0.2.tar", &tar_bytes).unwrap();
    assert_eq!(keys_of(&files), vec!["/index.js"]);
    assert_eq!(tarball_type_for("https://r/react-17.0.2.tar"), TarballType::Tar);
    assert_eq!(
        tarball_type_for("https://r/react-17.0.2.tgz"),
        TarballType::TarGzip
    );
}

#[test]
fn tar_bytes_under_tgz_url_fail() {
    let tar_bytes = tar_archive(vec![("package/index.js", b"x")]);
    let r = decode_tarball("https://r/react-17.0.2.tgz", &tar_bytes);
    assert!(matches!(r, Err(ServerError::TarballDecodeError)));
}

#[test]
fn entry_without_slash_lands_on_empty_path() {
    let tar_bytes = tar_archive(vec![("rootfile", b"top"), ("package/a.js", b"a")]);
    let files = decode_tarball("https://r/x.tar", &tar_bytes).unwrap();
    assert_eq!(keys_of(&files), vec!["", "/a.js"]);
}

#[test]
fn native_artifacts_are_dropped() {
    let tar_bytes = tar_archive(vec![
        ("package/index.js", b"x"),
        ("package/build/native.node", b"\x7fELF"),
    ]);
    let files = decode_tarball("https://r/x.tar", &tar_bytes).unwrap();
    assert_eq!(keys_of(&files), vec!["/index.js"]);
}

#[test]
fn cell_serves_fresh_value() {
    let mut cell: Cached<u64> = Cached::new(100);
    cell.on_fetch_ok(50, 7);
    assert_eq!(cell.get_cached_decision(120), CacheDecision::UseFresh);
}

#[test]
fn cell_serves_stale_while_revalidating() {
    let mut cell: Cached<u64> = Cached::new(100);
    cell.on_fetch_ok(0, 7);
    // Stale and nothing in flight: start a refresh but answer immediately.
    assert_eq!(
        cell.get_cached_decision(250),
        CacheDecision::StartFetchReturnStale
    );
    cell.on_fetch_started();
    // Stale with a refresh in flight: answer immediately, never start another.
    assert_eq!(cell.get_cached_decision(260), CacheDecision::ReturnStale);
    cell.on_fetch_ok(261, 8);
    assert_eq!(cell.get_cached_decision(262), CacheDecision::UseFresh);
}

#[test]
fn cell_coalesces_waiters() {
    let mut cell: Cached<u64> = Cached::new(100);
    assert_eq!(cell.get_cached_decision(0), CacheDecision::StartFetchAwait);
    cell.on_fetch_started();
    // Every caller while the fetch is in flight subscribes; none fetches.
    assert_eq!(cell.get_cached_decision(1), CacheDecision::SubscribeExisting);
    assert_eq!(cell.get_cached_decision(2), CacheDecision::SubscribeExisting);
    cell.on_fetch_err();
    assert_eq!(cell.get_cached_decision(3), CacheDecision::StartFetchAwait);
}
