use vstd::prelude::*;
use vstd::string::StringExecFns;

verus! {

/// The error taxonomy of the service. Each variant records what the caller
/// needs to classify the failure; human-readable text comes from `describe`.
#[derive(Debug, Clone)]
pub enum ServerError {
    /// A version or range string that the semver library rejects.
    InvalidSemver,
    /// A package specifier with too many `@` separators, or a dist-tag
    /// lookup that failed without a special `:` specifier.
    InvalidPackageSpecifier,
    /// The package is unknown to the local store.
    PackageNotFound(String),
    /// The package is known but no stored version satisfies the range.
    PackageVersionNotFound(String, String),
    /// A request specifier carried a version prefix above the supported one.
    InvalidCDNVersion,
    /// A request path segment that is not valid base64, or whose decoded
    /// bytes are not valid UTF-8.
    Base64DecodingError,
    /// A non-success status while downloading a tarball.
    TarballDownloadError { status_code: u16, url: String },
    /// A non-success status while downloading package metadata.
    PackageMetadataDownloadError { status_code: u16, url: String },
    /// A non-success status while downloading a package manifest.
    NpmManifestDownloadError { status_code: u16, package_name: String },
    /// The source transformer could not parse a module.
    SWCParseError { message: String },
    /// The compact binary serializer failed.
    SerializeError,
    /// The compact binary deserializer failed.
    DeserializeError,
    /// A tarball's bytes could not be decoded as an archive.
    TarballDecodeError,
}

pub type AppResult<T> = Result<T, ServerError>;

/// The message that `describe` returns for each variant.
pub open spec fn spec_describe(e: &ServerError) -> Seq<char> {
    match e {
        ServerError::InvalidSemver => "invalid semver"@,
        ServerError::InvalidPackageSpecifier => "Invalid package specifier"@,
        ServerError::PackageNotFound(_) => "Package not found"@,
        ServerError::PackageVersionNotFound(_, _) => "Package version not found"@,
        ServerError::InvalidCDNVersion => "Invalid CDN version"@,
        ServerError::Base64DecodingError => "Failed to decode base64 string"@,
        ServerError::TarballDownloadError { .. } => "Could not download tarball package"@,
        ServerError::PackageMetadataDownloadError { .. } => {
            "Could not download package metadata"@
        },
        ServerError::NpmManifestDownloadError { .. } => {
            "Could not download npm package manifest"@
        },
        ServerError::SWCParseError { .. } => "Could not parse module"@,
        ServerError::SerializeError => "Failed to serialize to msgpack"@,
        ServerError::DeserializeError => "Failed to deserialize from msgpack"@,
        ServerError::TarballDecodeError => "Could not decode tarball archive"@,
    }
}

impl ServerError {
    /// A short human-readable message, one per variant.
    pub fn describe(&self) -> (r: String)
        ensures
            r@ == spec_describe(self),
    {
        match self {
            ServerError::InvalidSemver => String::from_str("invalid semver"),
            ServerError::InvalidPackageSpecifier => String::from_str("Invalid package specifier"),
            ServerError::PackageNotFound(_) => String::from_str("Package not found"),
            ServerError::PackageVersionNotFound(_, _) => {
                String::from_str("Package version not found")
            },
            ServerError::InvalidCDNVersion => String::from_str("Invalid CDN version"),
            ServerError::Base64DecodingError => {
                String::from_str("Failed to decode base64 string")
            },
            ServerError::TarballDownloadError { .. } => {
                String::from_str("Could not download tarball package")
            },
            ServerError::PackageMetadataDownloadError { .. } => {
                String::from_str("Could not download package metadata")
            },
            ServerError::NpmManifestDownloadError { .. } => {
                String::from_str("Could not download npm package manifest")
            },
            ServerError::SWCParseError { .. } => String::from_str("Could not parse module"),
            ServerError::SerializeError => String::from_str("Failed to serialize to msgpack"),
            ServerError::DeserializeError => {
                String::from_str("Failed to deserialize from msgpack")
            },
            ServerError::TarballDecodeError => {
                String::from_str("Could not decode tarball archive")
            },
        }
    }
}

/// An error carried over a broadcast channel to every waiter of a shared
/// fetch: failures are made cloneable by keeping only their message.
#[derive(Debug, Clone)]
pub struct SendableError {
    pub inner: String,
}

impl SendableError {
    pub fn new(inner: String) -> (r: SendableError)
        ensures
            r.inner@ == inner@,
    {
        SendableError { inner }
    }

    /// The stored message, as the error's own description.
    pub fn describe(&self) -> (r: String)
        ensures
            r@ == self.inner@,
    {
        self.inner.clone()
    }
}

/// A failure reported by the change-feed endpoint: the HTTP status and the
/// response body, when one was readable.
#[derive(Debug, Clone)]
pub struct ChangeStreamError {
    pub status: u16,
    pub message: Option<String>,
}

impl ChangeStreamError {
    pub fn new(status: u16, message: Option<String>) -> (r: ChangeStreamError)
        ensures
            r.status == status,
            r.message == message,
    {
        ChangeStreamError { status, message }
    }
}

/// The body of an error response: a status code and two message fields,
/// one human-readable and one for debugging.
#[derive(Debug, Clone)]
pub struct ErrorReply {
    pub status: u16,
    pub message: String,
    pub details: String,
}

impl ErrorReply {
    pub fn new(status: u16, message: String, details: String) -> (r: ErrorReply)
        ensures
            r.status == status,
            r.message@ == message@,
            r.details@ == details@,
    {
        ErrorReply { status, message, details }
    }
}

} // verus!
