use sandpack_cdn::envelope::cache_control_value;
use sandpack_cdn::envelope::CustomReply;
use sandpack_cdn::errors::ChangeStreamError;
use sandpack_cdn::errors::ErrorReply;
use sandpack_cdn::errors::SendableError;
use sandpack_cdn::errors::ServerError;
use sandpack_cdn::module_proc::check_transformable;
use sandpack_cdn::module_proc::get_cache_key;
use sandpack_cdn::package_data::PackageDist;
use sandpack_cdn::service::CachedPackageManifest;
use sandpack_cdn::service::PackageManifest;
use sandpack_cdn::service::RetryDecision;
use sandpack_cdn::service::should_fetch_package;
use sandpack_cdn::tarball::check_download_status;
use sandpack_cdn::tarball::TarballType;

#[test]
fn download_status_classified() {
    assert!(check_download_status(200, "https://r/a.tgz").is_ok());
    assert!(check_download_status(299, "https://r/a.tgz").is_ok());
    let err = check_download_status(404, "https://r/a.tgz").unwrap_err();
    match err {
        ServerError::TarballDownloadError { status_code, url } => {
            assert_eq!(status_code, 404);
            assert_eq!(url, "https://r/a.tgz");
        }
        other => panic!("unexpected error {:?}", other),
    }
}

#[test]
fn transformable_names() {
    assert!(check_transformable("index.js").is_ok());
    assert!(check_transformable("a.mjs").is_ok());
    assert!(matches!(
        check_transformable("style.css"),
        Err(ServerError::SWCParseError { .. })
    ));
    assert!(matches!(
        check_transformable("x"),
        Err(ServerError::SWCParseError { .. })
    ));
}

#[test]
fn manifest_cache_key() {
    assert_eq!(get_cache_key("react"), "v1::manifest::react");
}

#[test]
fn error_messages() {
    assert_eq!(ServerError::InvalidSemver.describe(), "invalid semver");
    assert_eq!(
        ServerError::InvalidCDNVersion.describe(),
        "Invalid CDN version"
    );
    let sendable = SendableError::new(String::from("broadcast closed"));
    assert_eq!(sendable.describe(), "broadcast closed");
    let stream_err = ChangeStreamError::new(500, Some(String::from("boom")));
    assert_eq!(stream_err.status, 500);
    let reply = ErrorReply::new(404, String::from("nope"), String::from("missing"));
    assert_eq!(reply.status, 404);
    assert_eq!(reply.message, "nope");
}

#[test]
fn reply_headers_replace() {
    let mut reply = CustomReply::new(Vec::from("ok".as_bytes()));
    assert_eq!(reply.status, 200);
    reply.add_header("cache-control", cache_control_value(3600).as_str());
    reply.add_header("cache-control", cache_control_value(300).as_str());
    reply.set_status(500);
    assert_eq!(reply.status, 500);
    assert_eq!(reply.headers.len(), 1);
    assert_eq!(reply.headers[0].1, "public, max-age=300");
}

#[test]
fn manifest_slims_to_tarballs() {
    let manifest = PackageManifest {
        name: String::from("react"),
        dist_tags: vec![(String::from("latest"), String::from("17.0.2"))],
        versions: vec![(
            String::from("17.0.2"),
            PackageDist {
                tarball: String::from("https://r/react-17.0.2.tgz"),
            },
        )],
    };
    let cached = CachedPackageManifest::from_manifest(manifest, Some(String::from("abc")), 500);
    assert_eq!(cached.name, "react");
    assert_eq!(cached.versions.len(), 1);
    assert_eq!(cached.versions[0].1, "https://r/react-17.0.2.tgz");
    assert!(cached.is_fresh(500 + 899));
    assert!(!cached.is_fresh(500 + 900));
}

#[test]
fn fetch_freshness_window() {
    assert!(should_fetch_package(false, None, 100));
    assert!(should_fetch_package(true, None, 100));
    assert!(!should_fetch_package(true, Some(100), 150));
    assert!(should_fetch_package(true, Some(100), 161));
}

#[test]
fn retry_decisions() {
    let none: Option<String> = None;
    let fetch = RetryDecision::from_error(
        ServerError::PackageNotFound(String::from("react")),
        &none,
    );
    assert!(matches!(fetch, RetryDecision::FetchAndRetry(n) if n == "react"));
    let repeated = Some(String::from("react"));
    let give_up = RetryDecision::from_error(
        ServerError::PackageVersionNotFound(String::from("react"), String::from("^17")),
        &repeated,
    );
    assert!(matches!(
        give_up,
        RetryDecision::GiveUp(ServerError::PackageNotFound(_))
    ));
    let other = RetryDecision::from_error(ServerError::InvalidSemver, &none);
    assert!(matches!(
        other,
        RetryDecision::GiveUp(ServerError::InvalidSemver)
    ));
}

#[test]
fn tarball_labels() {
    assert_eq!(TarballType::Tar.label(), "tar");
    assert_eq!(TarballType::TarGzip.label(), "tgz");
}
