use sandpack_cdn::envelope::base64_round_trip;
use sandpack_cdn::envelope::decode_base64;
use sandpack_cdn::envelope::decode_req_part;
use sandpack_cdn::envelope::encode_base64;
use sandpack_cdn::envelope::parse_query;
use sandpack_cdn::envelope::response_format;
use sandpack_cdn::envelope::ResponseFormat;
use sandpack_cdn::envelope::content_type_for;
use sandpack_cdn::errors::ServerError;
use sandpack_cdn::specifier::parse_package_specifier;
use sandpack_cdn::specifier::parse_package_specifier_no_validation;

#[test]
fn simple_version() {
    let (pkg_name, pkg_version) = parse_package_specifier("foo@1.2.3").unwrap();
    assert_eq!(pkg_name, "foo");
    assert_eq!(pkg_version, "1.2.3");
}

#[test]
fn simple_version_range_scoped() {
    let (pkg_name, pkg_version) =
        parse_package_specifier_no_validation("@types/react-dom@^1.2.3").unwrap();
    assert_eq!(pkg_name, "@types/react-dom");
    assert_eq!(pkg_version, "^1.2.3");
}

#[test]
fn version_range_whitespace() {
    let (pkg_name, pkg_version) =
        parse_package_specifier_no_validation("@types/dom @ 1 - 2 ").unwrap();
    assert_eq!(pkg_name, "@types/dom");
    assert_eq!(pkg_version, "1 - 2");
}

#[test]
fn larger_than_range() {
    let (pkg_name, pkg_version) =
        parse_package_specifier_no_validation("@code-sandbox_/test@ >=4 ").unwrap();
    assert_eq!(pkg_name, "@code-sandbox_/test");
    assert_eq!(pkg_version, ">=4");
}

#[test]
fn too_many_separators_rejected() {
    let parsed = parse_package_specifier_no_validation("a@b@c@d");
    assert!(matches!(parsed, Err(ServerError::InvalidPackageSpecifier)));
}

#[test]
fn invalid_version_rejected() {
    let parsed = parse_package_specifier("foo@not-a-version");
    assert!(matches!(parsed, Err(ServerError::InvalidSemver)));
}

#[test]
fn base64_bytes_round_trip() {
    let bytes: Vec<u8> = Vec::from("2(react@^17;react-dom@^17)".as_bytes());
    let back = base64_round_trip(&bytes).unwrap();
    assert_eq!(back, bytes);
}

#[test]
fn base64_string_round_trip() {
    let original = "5(react@^18)";
    let encoded = encode_base64(&Vec::from(original.as_bytes()));
    let decoded = decode_base64(encoded.as_str()).unwrap();
    assert_eq!(decoded, original);
    // Re-encoding the decoded request string reproduces the encoded form.
    let reencoded = encode_base64(&Vec::from(decoded.as_bytes()));
    assert_eq!(reencoded, encoded);
}

#[test]
fn bad_base64_rejected() {
    let r = decode_base64("!!!not base64!!!");
    assert!(matches!(r, Err(ServerError::Base64DecodingError)));
}

#[test]
fn versioned_specifier_decodes() {
    let encoded = encode_base64(&Vec::from("2(react@^17)".as_bytes()));
    let (version, payload) = decode_req_part(encoded.as_str()).unwrap();
    assert_eq!(version, 2);
    assert_eq!(payload, "react@^17");
}

#[test]
fn unversioned_specifier_is_version_one() {
    let encoded = encode_base64(&Vec::from("react@17.0.2".as_bytes()));
    let (version, payload) = decode_req_part(encoded.as_str()).unwrap();
    assert_eq!(version, 1);
    assert_eq!(payload, "react@17.0.2");
}

#[test]
fn unsupported_version_rejected() {
    let encoded = encode_base64(&Vec::from("6(react@^17)".as_bytes()));
    let r = decode_req_part(encoded.as_str());
    assert!(matches!(r, Err(ServerError::InvalidCDNVersion)));
}

#[test]
fn format_follows_version() {
    assert_eq!(response_format(1), ResponseFormat::Json);
    assert_eq!(response_format(4), ResponseFormat::Json);
    assert_eq!(response_format(5), ResponseFormat::MsgPack);
    assert_eq!(content_type_for(&ResponseFormat::Json), "application/json");
    assert_eq!(
        content_type_for(&ResponseFormat::MsgPack),
        "application/javascript"
    );
}

#[test]
fn query_parses_to_requests() {
    let reqs = parse_query("react@^17;react-dom@^17").unwrap();
    assert_eq!(reqs.len(), 2);
    assert_eq!(reqs[0].name, "react");
    assert_eq!(reqs[1].name, "react-dom");
}
