//! Where data is stored, and how to reach it.

use url::Url;
use vstd::prelude::*;

use crate::error::{Error, ErrorOrigin, Result};
use crate::error_struct::{at, copy_text};
use crate::text::{contains_scheme_separator, same_text, skip_slashes, starts_with_ignoring_case};

verus! {

/// How to reach S3-compatible storage.
#[derive(Debug)]
pub struct S3StorageConfig {
    pub endpoint: Option<String>,
    pub region: Option<String>,
    pub key_id: Option<String>,
    pub secret: Option<String>,
    pub session_token: Option<String>,
    pub use_ssl: bool,
    pub virtual_host_style: bool,
}

/// How to reach S3-compatible storage, as mathematical values.
pub struct S3StorageConfigView {
    pub endpoint: Option<Seq<char>>,
    pub region: Option<Seq<char>>,
    pub key_id: Option<Seq<char>>,
    pub secret: Option<Seq<char>>,
    pub session_token: Option<Seq<char>>,
    pub use_ssl: bool,
    pub virtual_host_style: bool,
}

impl View for S3StorageConfig {
    type V = S3StorageConfigView;

    open spec fn view(&self) -> S3StorageConfigView {
        S3StorageConfigView {
            endpoint: crate::error_struct::optional_text(self.endpoint),
            region: crate::error_struct::optional_text(self.region),
            key_id: crate::error_struct::optional_text(self.key_id),
            secret: crate::error_struct::optional_text(self.secret),
            session_token: crate::error_struct::optional_text(self.session_token),
            use_ssl: self.use_ssl,
            virtual_host_style: self.virtual_host_style,
        }
    }
}

impl Default for S3StorageConfig {
    fn default() -> (config: Self)
        ensures
            config@ == (S3StorageConfigView {
                endpoint: None,
                region: None,
                key_id: None,
                secret: None,
                session_token: None,
                use_ssl: true,
                virtual_host_style: false,
            }),
    {
        S3StorageConfig {
            endpoint: None,
            region: None,
            key_id: None,
            secret: None,
            session_token: None,
            use_ssl: true,
            virtual_host_style: false,
        }
    }
}

impl Clone for S3StorageConfig {
    fn clone(&self) -> (copy: Self)
        ensures
            copy@ == self@,
    {
        S3StorageConfig {
            endpoint: copy_text(&self.endpoint),
            region: copy_text(&self.region),
            key_id: copy_text(&self.key_id),
            secret: copy_text(&self.secret),
            session_token: copy_text(&self.session_token),
            use_ssl: self.use_ssl,
            virtual_host_style: self.virtual_host_style,
        }
    }
}

/// The parts of a URL.
#[derive(Debug)]
pub struct UrlParts {
    pub scheme: String,
    pub host: Option<String>,
    pub path: String,
    pub text: String,
}

/// The parts of a URL, as mathematical values.
pub struct UrlPartsView {
    pub scheme: Seq<char>,
    pub host: Option<Seq<char>>,
    pub path: Seq<char>,
    pub text: Seq<char>,
}

impl View for UrlParts {
    type V = UrlPartsView;

    open spec fn view(&self) -> UrlPartsView {
        UrlPartsView {
            scheme: self.scheme@,
            host: crate::error_struct::optional_text(self.host),
            path: self.path@,
            text: self.text@,
        }
    }
}

/// What `url::Url::parse` makes of a text.
pub uninterp spec fn parsed_url(text: Seq<char>) -> std::result::Result<UrlPartsView, Seq<char>>;

/// Parses `text` with `url::Url::parse`. The parts depend on `text` alone;
/// nothing more is claimed of them.
#[verifier::external_body]
pub(crate) fn parse_url(text: &str) -> (parts: std::result::Result<UrlParts, String>)
    ensures
        match parts {
            Ok(parts) => parsed_url(text@) == Ok::<UrlPartsView, Seq<char>>(parts@),
            Err(message) => parsed_url(text@) == Err::<UrlPartsView, Seq<char>>(message@),
        },
{
    match Url::parse(text) {
        Ok(url) => Ok(
            UrlParts {
                scheme: url.scheme().to_owned(),
                host: url.host_str().map(str::to_owned),
                path: url.path().to_owned(),
                text: url.as_str().to_owned(),
            },
        ),
        Err(error) => Err(error.to_string()),
    }
}

/// Whether a byte of a path segment stands for itself in a URL.
pub open spec fn kept_in_url(byte: u8) -> bool {
    33 <= byte <= 126 && byte != '"' as u8 && byte != '#' as u8 && byte != '%' as u8 && byte
        != '/' as u8 && byte != '<' as u8 && byte != '>' as u8 && byte != '?' as u8 && byte
        != '\\' as u8 && byte != '`' as u8 && byte != '{' as u8 && byte != '}' as u8
}

/// A hexadecimal digit, in upper case.
pub open spec fn hex_digit(value: int) -> char {
    "0123456789ABCDEF"@[value]
}

/// Bytes of a path segment as they stand in a URL: by themselves, or as `%` and
/// two hexadecimal digits.
pub open spec fn url_segment(bytes: Seq<u8>) -> Seq<char>
    decreases bytes.len(),
{
    if bytes.len() == 0 {
        Seq::empty()
    } else {
        let byte = bytes.last();
        url_segment(bytes.drop_last()) + if kept_in_url(byte) {
            seq![byte as char]
        } else {
            seq!['%', hex_digit(byte as int / 16), hex_digit(byte as int % 16)]
        }
    }
}

/// The segments of a `/`-separated path as they stand in a URL, each behind a
/// `/`. Segments that are empty or `.` are left out.
pub open spec fn url_segments(path: Seq<char>) -> Seq<char>
    decreases path.len(),
    via url_segments_decreases
{
    let slash = crate::text::last_position(path, '/');
    let segment = path.skip(slash + 1);
    let before = if slash < 0 {
        Seq::empty()
    } else {
        url_segments(path.take(slash))
    };
    if segment.len() == 0 || segment == seq!['.'] {
        before
    } else {
        before + "/"@ + url_segment(vstd::utf8::encode_utf8(segment))
    }
}

#[via_fn]
proof fn url_segments_decreases(path: Seq<char>) {
    crate::text::lemma_last_position_in_range(path, '/');
}

/// The URL of a path from the root.
pub open spec fn file_url_text(path: Seq<char>) -> Seq<char> {
    if url_segments(path).len() == 0 {
        "file:///"@
    } else {
        "file://"@ + url_segments(path)
    }
}

/// Whether a path starts at the root: with one `/`, and no other separator
/// behind it.
pub open spec fn is_rooted(path: Seq<char>) -> bool {
    &&& path.len() > 0
    &&& path[0] == '/'
    &&& path.len() > 1 ==> path[1] != '/' && path[1] != '\\'
}

/// Calls `url::Url::from_file_path`, which gives the `file://` URL of an
/// absolute path. Where the path starts at the root and has a URL, the URL is
/// made of its segments. Which paths are absolute, and how the others are
/// written in a URL, depends on the platform; that is not stated.
#[verifier::external_body]
pub(crate) fn file_url(path: &str) -> (url: Option<String>)
    ensures
        url matches Some(url) ==> "file://"@.is_prefix_of(url@),
        url matches Some(url) ==> is_rooted(path@) ==> url@ == file_url_text(path@),
{
    match Url::from_file_path(path) {
        Ok(url) => Some(url.as_str().to_owned()),
        Err(()) => None,
    }
}

/// The object path that `object_store::path::Path::from` makes of a text.
pub uninterp spec fn object_path_text(text: Seq<char>) -> Seq<char>;

/// Converts `text` with `object_store::path::Path::from`. The path depends on
/// `text` alone; nothing more is claimed of it.
#[verifier::external_body]
pub(crate) fn object_path(text: &str) -> (path: String)
    ensures
        path@ == object_path_text(text@),
{
    object_store::path::Path::from(text).as_ref().to_owned()
}

/// Keys for S3-compatible storage.
#[derive(Debug)]
pub struct S3Credentials {
    pub key_id: String,
    pub secret: String,
    pub session_token: Option<String>,
}

/// Keys for S3-compatible storage, as mathematical values.
pub struct S3CredentialsView {
    pub key_id: Seq<char>,
    pub secret: Seq<char>,
    pub session_token: Option<Seq<char>>,
}

/// The settings of a connection to S3-compatible storage. Requests without
/// credentials are not signed.
#[derive(Debug)]
pub struct S3Settings {
    pub bucket: String,
    pub region: String,
    pub endpoint: Option<String>,
    pub credentials: Option<S3Credentials>,
    pub virtual_host_style: bool,
}

/// The settings of a connection, as mathematical values.
pub struct S3SettingsView {
    pub bucket: Seq<char>,
    pub region: Seq<char>,
    pub endpoint: Option<Seq<char>>,
    pub credentials: Option<S3CredentialsView>,
    pub virtual_host_style: bool,
}

impl View for S3Settings {
    type V = S3SettingsView;

    open spec fn view(&self) -> S3SettingsView {
        S3SettingsView {
            bucket: self.bucket@,
            region: self.region@,
            endpoint: crate::error_struct::optional_text(self.endpoint),
            credentials: match self.credentials {
                Some(credentials) => Some(
                    S3CredentialsView {
                        key_id: credentials.key_id@,
                        secret: credentials.secret@,
                        session_token: crate::error_struct::optional_text(
                            credentials.session_token,
                        ),
                    },
                ),
                None => None,
            },
            virtual_host_style: self.virtual_host_style,
        }
    }
}

/// Where data is stored: an object path in local storage, or in S3-compatible
/// storage with its settings. `location` is the URL of the whole.
#[derive(Debug)]
pub struct OpendalStorage {
    pub s3: Option<S3Settings>,
    pub object_path: String,
    pub location: String,
}

/// Where data is stored, as mathematical values.
pub struct OpendalStorageView {
    pub s3: Option<S3SettingsView>,
    pub object_path: Seq<char>,
    pub location: Seq<char>,
}

impl View for OpendalStorage {
    type V = OpendalStorageView;

    open spec fn view(&self) -> OpendalStorageView {
        OpendalStorageView {
            s3: match self.s3 {
                Some(settings) => Some(settings@),
                None => None,
            },
            object_path: self.object_path@,
            location: self.location@,
        }
    }
}

/// Whether a path is an `s3://` URI, in any case.
pub fn is_s3_uri(path: &str) -> (is_s3: bool)
    ensures
        is_s3 == crate::text::has_prefix_ignoring_case(path@, "s3://"@),
{
    starts_with_ignoring_case(path, "s3://")
}

/// The endpoint with a scheme: its own, else that of `use_ssl`.
pub open spec fn endpoint_url(endpoint: Seq<char>, use_ssl: bool) -> Seq<char> {
    if crate::text::has_scheme_separator(endpoint) {
        endpoint
    } else if use_ssl {
        "https://"@ + endpoint
    } else {
        "http://"@ + endpoint
    }
}

/// Why a URL cannot be reached with a configuration, if it cannot.
pub open spec fn s3_problem(parts: UrlPartsView, config: S3StorageConfigView) -> Option<Seq<char>> {
    if parts.scheme != "s3"@ {
        Some("expected an s3:// URI"@)
    } else if parts.host is None || parts.host->0.len() == 0 {
        Some("S3 URI must include a bucket"@)
    } else if config.key_id is Some != config.secret is Some {
        Some("S3 key ID and secret must be provided together"@)
    } else if config.session_token is Some && config.key_id is None {
        Some("S3 session token requires a key ID and secret"@)
    } else {
        None
    }
}

/// The storage behind a URL that can be reached.
pub open spec fn s3_storage(parts: UrlPartsView, config: S3StorageConfigView) -> OpendalStorageView {
    OpendalStorageView {
        s3: Some(
            S3SettingsView {
                bucket: parts.host->0,
                region: match config.region {
                    Some(region) => region,
                    None => "us-east-1"@,
                },
                endpoint: match config.endpoint {
                    Some(endpoint) => Some(endpoint_url(endpoint, config.use_ssl)),
                    None => None,
                },
                credentials: match config.key_id {
                    Some(key_id) => Some(
                        S3CredentialsView {
                            key_id,
                            secret: config.secret->0,
                            session_token: config.session_token,
                        },
                    ),
                    None => None,
                },
                virtual_host_style: config.virtual_host_style,
            },
        ),
        object_path: object_path_text(crate::text::without_leading_slashes(parts.path)),
        location: parts.text,
    }
}

/// Whether a text holds no character.
fn is_blank(text: &str) -> (blank: bool)
    ensures
        blank == (text@.len() == 0),
{
    text.unicode_len() == 0
}

/// The endpoint with a scheme.
fn complete_endpoint(endpoint: &str, use_ssl: bool) -> (url: String)
    ensures
        url@ == endpoint_url(endpoint@, use_ssl),
{
    if contains_scheme_separator(endpoint) {
        endpoint.to_owned()
    } else {
        let mut url = if use_ssl {
            "https://".to_owned()
        } else {
            "http://".to_owned()
        };
        url.append(endpoint);
        url
    }
}

impl OpendalStorage {
    /// The storage behind a parsed `s3://` URI.
    pub fn from_s3_url(parts: UrlParts, config: &S3StorageConfig) -> (storage: Result<Self>)
        ensures
            match storage {
                Ok(storage) => s3_problem(parts@, config@) is None && storage@ == s3_storage(
                    parts@,
                    config@,
                ),
                Err(error) => s3_problem(parts@, config@) matches Some(message) && error@
                    == crate::error::internal_error(message),
            },
    {
        if !same_text(parts.scheme.as_str(), "s3") {
            return Err(Error::message(
                "expected an s3:// URI".to_owned(),
                at("src/storage.rs", 446, 24),
            ));
        }
        let bucket = match parts.host {
            Some(host) => {
                if is_blank(host.as_str()) {
                    return Err(Error::message(
                        "S3 URI must include a bucket".to_owned(),
                        at("src/storage.rs", 454, 32),
                    ));
                }
                host
            },
            None => {
                return Err(Error::message(
                    "S3 URI must include a bucket".to_owned(),
                    at("src/storage.rs", 462, 28),
                ));
            },
        };
        if config.key_id.is_some() != config.secret.is_some() {
            return Err(
                Error::message(
                    "S3 key ID and secret must be provided together".to_owned(),
                    at("src/storage.rs", 470, 17),
                ),
            );
        }
        if config.session_token.is_some() && config.key_id.is_none() {
            return Err(
                Error::message(
                    "S3 session token requires a key ID and secret".to_owned(),
                    at("src/storage.rs", 478, 17),
                ),
            );
        }
        let region = match &config.region {
            Some(region) => region.clone(),
            None => "us-east-1".to_owned(),
        };
        let endpoint = match &config.endpoint {
            Some(endpoint) => Some(complete_endpoint(endpoint.as_str(), config.use_ssl)),
            None => None,
        };
        let credentials = match (&config.key_id, &config.secret) {
            (Some(key_id), Some(secret)) => Some(
                S3Credentials {
                    key_id: key_id.clone(),
                    secret: secret.clone(),
                    session_token: copy_text(&config.session_token),
                },
            ),
            _ => None,
        };
        let settings = S3Settings {
            bucket,
            region,
            endpoint,
            credentials,
            virtual_host_style: config.virtual_host_style,
        };
        Ok(
            OpendalStorage {
                s3: Some(settings),
                object_path: object_path(skip_slashes(parts.path.as_str())),
                location: parts.text,
            },
        )
    }

    /// The storage behind an `s3://` URI.
    pub fn from_s3_uri(uri: &str, config: &S3StorageConfig) -> (storage: Result<Self>)
        ensures
            outcome_view(storage) == s3_outcome(uri@, config@),
    {
        match parse_url(uri) {
            Ok(parts) => OpendalStorage::from_s3_url(parts, config),
            Err(message) => Err(
                Error::from_component(
                    ErrorOrigin::Url,
                    message,
                    at("src/storage.rs", 526, 17),
                ).with_context("invalid S3 URI"),
            ),
        }
    }

    /// The storage at an absolute local path, whose URL is `location`.
    pub fn from_file_url(absolute: &str, location: Option<String>) -> (storage: Result<Self>)
        ensures
            match (storage, location) {
                (Ok(storage), Some(location)) => storage@ == (OpendalStorageView {
                    s3: None,
                    object_path: object_path_text(
                        crate::text::without_leading_slashes(absolute@),
                    ),
                    location: location@,
                }),
                (Err(error), None) => error@ == crate::error::internal_error(
                    "invalid local storage path: "@ + absolute@,
                ),
                _ => false,
            },
    {
        match location {
            Some(location) => Ok(
                OpendalStorage {
                    s3: None,
                    object_path: object_path(skip_slashes(absolute)),
                    location,
                },
            ),
            None => {
                let mut message = "invalid local storage path: ".to_owned();
                message.append(absolute);
                Err(Error::message(message, at("src/storage.rs", 563, 21)))
            },
        }
    }

    /// The storage at an absolute local path. Whether the path has a URL, and
    /// which one a path that does not start at the root has, depends on the
    /// platform.
    pub fn from_local_path(absolute: &str) -> (storage: Result<Self>)
        ensures
            is_local_outcome(outcome_view(storage), absolute@),
    {
        OpendalStorage::from_file_url(absolute, file_url(absolute))
    }

    /// The storage at a path: an `s3://` URI, which needs a configuration, or a
    /// local path, which takes none. `absolute` is the local path made absolute;
    /// it is not looked at for a URI.
    pub fn from_path(path: &str, absolute: &str, s3_config: Option<&S3StorageConfig>) -> (storage:
        Result<Self>)
        ensures
            is_path_outcome(
                outcome_view(storage),
                path@,
                absolute@,
                match s3_config {
                    Some(config) => Some(config@),
                    None => None,
                },
            ),
    {
        if is_s3_uri(path) {
            match s3_config {
                Some(config) => OpendalStorage::from_s3_uri(path, config),
                None => Err(Error::message(
                    "S3 path requires S3 storage configuration".to_owned(),
                    at("src/storage.rs", 597, 29),
                )),
            }
        } else if s3_config.is_some() {
            Err(
                Error::message(
                    "S3 storage configuration can only be used with an s3:// path".to_owned(),
                    at("src/storage.rs", 604, 17),
                ),
            )
        } else {
            OpendalStorage::from_local_path(absolute)
        }
    }

    /// Whether the storage has no object path.
    pub fn is_root(&self) -> (root: bool)
        ensures
            root == (self@.object_path.len() == 0),
    {
        is_blank(self.object_path.as_str())
    }
}

/// The storage behind an `s3://` URI, or the error for it.
pub open spec fn s3_outcome(
    uri: Seq<char>,
    config: S3StorageConfigView,
) -> StorageOutcome {
    match parsed_url(uri) {
        Err(message) => Err(
            crate::error::in_context(
                crate::error::caused_error(
                    crate::error::ErrorKind::Url,
                    "URL parse error"@,
                    crate::error_struct::ErrorStatus::Permanent,
                    message,
                ),
                "invalid S3 URI"@,
            ),
        ),
        Ok(parts) => match s3_problem(parts, config) {
            Some(message) => Err(crate::error::internal_error(message)),
            None => Ok(s3_storage(parts, config)),
        },
    }
}

/// The storage behind a path, or the error for it.
pub type StorageOutcome = std::result::Result<OpendalStorageView, crate::error::ErrorView>;

/// A result as mathematical values.
pub open spec fn outcome_view(result: Result<OpendalStorage>) -> StorageOutcome {
    match result {
        Ok(storage) => Ok(storage@),
        Err(error) => Err(error@),
    }
}

/// Whether an outcome is the storage at a local path, or says that the path has
/// no URL.
pub open spec fn is_local_outcome(outcome: StorageOutcome, absolute: Seq<char>) -> bool {
    match outcome {
        Ok(storage) => {
            &&& storage.s3 is None
            &&& storage.object_path == object_path_text(
                crate::text::without_leading_slashes(absolute),
            )
            &&& "file://"@.is_prefix_of(storage.location)
            &&& is_rooted(absolute) ==> storage.location == file_url_text(absolute)
        },
        Err(error) => error == crate::error::internal_error(
            "invalid local storage path: "@ + absolute,
        ),
    }
}

/// Whether an outcome is the storage at a path. An `s3://` URI needs a
/// configuration, and a local path takes none.
pub open spec fn is_path_outcome(
    outcome: StorageOutcome,
    path: Seq<char>,
    absolute: Seq<char>,
    s3_config: Option<S3StorageConfigView>,
) -> bool {
    if crate::text::has_prefix_ignoring_case(path, "s3://"@) {
        match s3_config {
            Some(config) => outcome == s3_outcome(path, config),
            None => outcome == StorageOutcome::Err(
                crate::error::internal_error("S3 path requires S3 storage configuration"@),
            ),
        }
    } else {
        match s3_config {
            Some(_) => outcome == StorageOutcome::Err(
                crate::error::internal_error(
                    "S3 storage configuration can only be used with an s3:// path"@,
                ),
            ),
            None => is_local_outcome(outcome, absolute),
        }
    }
}

/// How many operations run at once on storage: `local` of them on files, `cloud`
/// of them elsewhere.
pub fn io_parallelism(scheme: &str, local: usize, cloud: usize) -> (parallelism: usize)
    ensures
        parallelism == if scheme@ == "file"@ {
            local
        } else {
            cloud
        },
{
    if same_text(scheme, "file") {
        local
    } else {
        cloud
    }
}

}
