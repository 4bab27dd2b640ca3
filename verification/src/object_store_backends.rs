//! Cloud backends: what each store is opened with.
//!
//! Each function takes a group URI and the credential overrides, and returns
//! the settings of the store together with the group's path inside it. The
//! settings name what is explicitly overridden; whatever they leave open is
//! for the environment to provide.
use vstd::prelude::*;

use crate::credentials::ZarrCredentialOptions;
use crate::decimal::decimal_text;
use crate::error::ZarrError;
use crate::text::{strip_prefix, to_chars, trim_start_char};

#[allow(unused_imports)]
use crate::credentials::override_of;
#[allow(unused_imports)]
use crate::decimal::decimal;
#[allow(unused_imports)]
use crate::error::ZarrErrorView;
#[allow(unused_imports)]
use crate::text::{after_prefix, trim_start};

verus! {

/// The components of a URL that the backends look at.
#[derive(Debug, Clone)]
pub struct UrlParts {
    pub scheme: String,
    pub host: Option<String>,
    pub port: Option<u16>,
    pub path: String,
}

/// An optional text as a character sequence.
pub open spec fn text_option(o: Option<String>) -> Option<Seq<char>> {
    match o {
        Some(s) => Some(s@),
        None => None,
    }
}

impl View for UrlParts {
    type V = (Seq<char>, Option<Seq<char>>, Option<u16>, Seq<char>);

    open spec fn view(&self) -> (Seq<char>, Option<Seq<char>>, Option<u16>, Seq<char>) {
        (self.scheme@, text_option(self.host), self.port, self.path@)
    }
}

/// What a text is as an absolute URL: its scheme, host, explicit port and
/// path, or the wording of why it is none.
pub uninterp spec fn url_parts(uri: Seq<char>) -> Result<
    (Seq<char>, Option<Seq<char>>, Option<u16>, Seq<char>),
    Seq<char>,
>;

/// Calls `url::Url::parse` and reads `scheme`, `host_str`, `port` and `path`
/// of the URL. The contract claims only that they, or the wording of the
/// error, depend on the characters of the text alone; how the URL standard
/// takes a text apart is left unsaid.
#[verifier::external_body]
fn read_url(uri: &str) -> (r: Result<UrlParts, String>)
    ensures
        match r {
            Ok(parts) => url_parts(uri@) == Ok::<
                (Seq<char>, Option<Seq<char>>, Option<u16>, Seq<char>),
                Seq<char>,
            >(parts@),
            Err(reason) => url_parts(uri@) == Err::<
                (Seq<char>, Option<Seq<char>>, Option<u16>, Seq<char>),
                Seq<char>,
            >(reason@),
        },
{
    match url::Url::parse(uri) {
        Ok(url) => Ok(UrlParts {
            scheme: url.scheme().to_string(),
            host: url.host_str().map(str::to_string),
            port: url.port(),
            path: url.path().to_string(),
        }),
        Err(e) => Err(e.to_string()),
    }
}

/// Takes a group URI apart.
pub fn parse_url(uri: &str) -> (r: Result<UrlParts, ZarrError>)
    ensures
        match url_parts(uri@) {
            Ok(parts) => r is Ok && r->Ok_0@ == parts,
            Err(reason) => r is Err && r->Err_0@ == (ZarrErrorView::InvalidUri {
                uri: uri@,
                reason,
            }),
        },
{
    match read_url(uri) {
        Ok(parts) => Ok(parts),
        Err(reason) => Err(ZarrError::InvalidUri { uri: uri.to_string(), reason }),
    }
}

/// An ASCII letter in lower case; any other character as it is.
pub open spec fn ascii_lower(c: char) -> char {
    if 'A' <= c <= 'Z' {
        (c as u32 + 32) as char
    } else {
        c
    }
}

/// A text with its ASCII letters in lower case.
pub open spec fn lower(s: Seq<char>) -> Seq<char> {
    s.map_values(|c: char| ascii_lower(c))
}

/// The truth value that a text stands for, in whatever case it is written.
pub open spec fn read_bool(value: Seq<char>) -> Option<bool> {
    let v = lower(value);
    if v == "true"@ || v == "1"@ || v == "yes"@ || v == "on"@ {
        Some(true)
    } else if v == "false"@ || v == "0"@ || v == "no"@ || v == "off"@ {
        Some(false)
    } else {
        None
    }
}

/// Whether two characters are the same once the first is in lower case.
fn lower_is(c: char, wanted: char) -> (r: bool)
    ensures
        r == (ascii_lower(c) == wanted),
{
    if 'A' <= c && c <= 'Z' {
        c as u32 + 32 == wanted as u32
    } else {
        c == wanted
    }
}

/// Whether a text is the word, in whatever case it is written.
fn reads_as(value: &str, word: &str) -> (r: bool)
    ensures
        r == (lower(value@) == word@),
{
    let a = to_chars(value);
    let b = to_chars(word);
    if a.len() != b.len() {
        assert(lower(value@).len() != word@.len());
        return false;
    }
    let mut i: usize = 0;
    while i < a.len()
        invariant
            i <= a.len(),
            a.len() == b.len(),
            a@ == value@,
            b@ == word@,
            forall|j: int| 0 <= j < i ==> lower(value@)[j] == word@[j],
        decreases a.len() - i,
    {
        if !lower_is(a[i], b[i]) {
            assert(lower(value@)[i as int] != word@[i as int]);
            return false;
        }
        i += 1;
    }
    assert(lower(value@) =~= word@);
    true
}

/// Reads the value of a boolean credential option.
pub fn parse_bool(key: &str, value: &str) -> (r: Result<bool, ZarrError>)
    ensures
        match read_bool(value@) {
            Some(b) => r is Ok && r->Ok_0 == b,
            None => r is Err && r->Err_0@ == (ZarrErrorView::NotABoolean {
                key: key@,
                value: value@,
            }),
        },
{
    if reads_as(value, "true") || reads_as(value, "1") || reads_as(value, "yes") || reads_as(
        value,
        "on",
    ) {
        Ok(true)
    } else if reads_as(value, "false") || reads_as(value, "0") || reads_as(value, "no") || reads_as(
        value,
        "off",
    ) {
        Ok(false)
    } else {
        Err(ZarrError::NotABoolean { key: key.to_string(), value: value.to_string() })
    }
}

/// The truth value under a key: none if the key is unset, an error if what is
/// set is neither true nor false.
pub open spec fn flag_of(map: Map<Seq<char>, Seq<char>>, key: Seq<char>) -> Result<
    Option<bool>,
    ZarrErrorView,
> {
    match override_of(map, key) {
        None => Ok(None),
        Some(value) => match read_bool(value) {
            Some(b) => Ok(Some(b)),
            None => Err(ZarrErrorView::NotABoolean { key, value }),
        },
    }
}

fn override_text(creds: &ZarrCredentialOptions, key: &str) -> (r: Option<String>)
    requires
        creds.wf(),
    ensures
        text_option(r) == override_of(creds@, key@),
{
    match creds.get(key) {
        Some(v) => Some(v.to_string()),
        None => None,
    }
}

fn override_flag(creds: &ZarrCredentialOptions, key: &str) -> (r: Result<Option<bool>, ZarrError>)
    requires
        creds.wf(),
    ensures
        match flag_of(creds@, key@) {
            Ok(flag) => r is Ok && r->Ok_0 == flag,
            Err(e) => r is Err && r->Err_0@ == e,
        },
{
    match creds.get(key) {
        Some(v) => match parse_bool(key, v) {
            Ok(b) => Ok(Some(b)),
            Err(e) => Err(e),
        },
        None => Ok(None),
    }
}

/// What an S3 store is opened with.
#[derive(Debug, Clone)]
pub struct S3Store {
    pub url: String,
    pub access_key_id: Option<String>,
    pub secret_access_key: Option<String>,
    pub session_token: Option<String>,
    pub region: Option<String>,
    pub endpoint: Option<String>,
    pub allow_http: Option<bool>,
    pub skip_signature: Option<bool>,
}

/// What a Google Cloud Storage store is opened with.
#[derive(Debug, Clone)]
pub struct GcsStore {
    pub url: String,
    pub service_account_path: Option<String>,
    pub service_account_key: Option<String>,
    pub application_credentials_path: Option<String>,
}

/// What an Azure store is opened with.
#[derive(Debug, Clone)]
pub struct AzureStore {
    pub url: String,
    pub account_name: Option<String>,
    pub account_key: Option<String>,
    pub client_id: Option<String>,
    pub client_secret: Option<String>,
    pub tenant_id: Option<String>,
    pub use_emulator: Option<bool>,
}

/// What an HTTP store is opened with.
#[derive(Debug, Clone)]
pub struct HttpStore {
    pub base: String,
}

/// The settings of a cloud store, with texts as character sequences.
#[verifier::ext_equal]
pub ghost enum StoreView {
    S3 {
        url: Seq<char>,
        access_key_id: Option<Seq<char>>,
        secret_access_key: Option<Seq<char>>,
        session_token: Option<Seq<char>>,
        region: Option<Seq<char>>,
        endpoint: Option<Seq<char>>,
        allow_http: Option<bool>,
        skip_signature: Option<bool>,
    },
    Gcs {
        url: Seq<char>,
        service_account_path: Option<Seq<char>>,
        service_account_key: Option<Seq<char>>,
        application_credentials_path: Option<Seq<char>>,
    },
    Azure {
        url: Seq<char>,
        account_name: Option<Seq<char>>,
        account_key: Option<Seq<char>>,
        client_id: Option<Seq<char>>,
        client_secret: Option<Seq<char>>,
        tenant_id: Option<Seq<char>>,
        use_emulator: Option<bool>,
    },
    Http { base: Seq<char> },
}

impl View for S3Store {
    type V = StoreView;

    open spec fn view(&self) -> StoreView {
        StoreView::S3 {
            url: self.url@,
            access_key_id: text_option(self.access_key_id),
            secret_access_key: text_option(self.secret_access_key),
            session_token: text_option(self.session_token),
            region: text_option(self.region),
            endpoint: text_option(self.endpoint),
            allow_http: self.allow_http,
            skip_signature: self.skip_signature,
        }
    }
}

impl View for GcsStore {
    type V = StoreView;

    open spec fn view(&self) -> StoreView {
        StoreView::Gcs {
            url: self.url@,
            service_account_path: text_option(self.service_account_path),
            service_account_key: text_option(self.service_account_key),
            application_credentials_path: text_option(self.application_credentials_path),
        }
    }
}

impl View for AzureStore {
    type V = StoreView;

    open spec fn view(&self) -> StoreView {
        StoreView::Azure {
            url: self.url@,
            account_name: text_option(self.account_name),
            account_key: text_option(self.account_key),
            client_id: text_option(self.client_id),
            client_secret: text_option(self.client_secret),
            tenant_id: text_option(self.tenant_id),
            use_emulator: self.use_emulator,
        }
    }
}

impl View for HttpStore {
    type V = StoreView;

    open spec fn view(&self) -> StoreView {
        StoreView::Http { base: self.base@ }
    }
}

/// The settings of an S3 store.
pub open spec fn s3_settings(uri: Seq<char>, map: Map<Seq<char>, Seq<char>>) -> Result<
    StoreView,
    ZarrErrorView,
> {
    match (flag_of(map, "aws.allow_http"@), flag_of(map, "aws.skip_signature"@)) {
        (Err(e), _) => Err(e),
        (Ok(_), Err(e)) => Err(e),
        (Ok(allow_http), Ok(skip_signature)) => Ok(
            StoreView::S3 {
                url: uri,
                access_key_id: override_of(map, "aws.access_key_id"@),
                secret_access_key: override_of(map, "aws.secret_access_key"@),
                session_token: override_of(map, "aws.session_token"@),
                region: override_of(map, "aws.region"@),
                endpoint: override_of(map, "aws.endpoint"@),
                allow_http,
                skip_signature,
            },
        ),
    }
}

/// A URI with `gs://` in place of `gcs://`, which stands for the same store.
pub open spec fn gs_spelling(uri: Seq<char>) -> Seq<char> {
    match after_prefix(uri, "gcs://"@) {
        Some(rest) => "gs://"@ + rest,
        None => uri,
    }
}

/// The settings of a Google Cloud Storage store. The store is addressed by
/// `gs://`, however the URI spells the scheme.
pub open spec fn gcs_settings(uri: Seq<char>, map: Map<Seq<char>, Seq<char>>) -> StoreView {
    StoreView::Gcs {
        url: gs_spelling(uri),
        service_account_path: override_of(map, "gcp.service_account_path"@),
        service_account_key: override_of(map, "gcp.service_account_key"@),
        application_credentials_path: override_of(map, "gcp.application_credentials_path"@),
    }
}

/// The settings of an Azure store.
pub open spec fn azure_settings(uri: Seq<char>, map: Map<Seq<char>, Seq<char>>) -> Result<
    StoreView,
    ZarrErrorView,
> {
    match flag_of(map, "azure.use_emulator"@) {
        Err(e) => Err(e),
        Ok(use_emulator) => Ok(
            StoreView::Azure {
                url: uri,
                account_name: override_of(map, "azure.account_name"@),
                account_key: override_of(map, "azure.account_key"@),
                client_id: override_of(map, "azure.client_id"@),
                client_secret: override_of(map, "azure.client_secret"@),
                tenant_id: override_of(map, "azure.tenant_id"@),
                use_emulator,
            },
        ),
    }
}

/// The settings of an HTTP store: `scheme://host`, with `:port` behind it
/// where the URL has one of its own.
pub open spec fn http_settings(
    uri: Seq<char>,
    parts: (Seq<char>, Option<Seq<char>>, Option<u16>, Seq<char>),
) -> Result<StoreView, ZarrErrorView> {
    match (parts.1, parts.2) {
        (None, _) => Err(ZarrErrorView::MissingHost { uri }),
        (Some(host), None) => Ok(StoreView::Http { base: parts.0 + "://"@ + host }),
        (Some(host), Some(port)) => Ok(
            StoreView::Http { base: parts.0 + "://"@ + host + ":"@ + decimal(port as nat) },
        ),
    }
}

/// A store's settings with the group's path inside it, once the URI has been
/// taken apart; or why it could not be.
pub open spec fn with_path(
    uri: Seq<char>,
    url: Result<(Seq<char>, Option<Seq<char>>, Option<u16>, Seq<char>), Seq<char>>,
    settings: Result<StoreView, ZarrErrorView>,
) -> Result<(StoreView, Seq<char>), ZarrErrorView> {
    match (url, settings) {
        (Err(reason), _) => Err(ZarrErrorView::InvalidUri { uri, reason }),
        (Ok(_), Err(e)) => Err(e),
        (Ok(parts), Ok(store)) => Ok((store, trim_start(parts.3, '/'))),
    }
}

/// The path of a group inside its store: the URL's path without the slashes
/// in front of it.
fn path_in_store(parts: &UrlParts) -> (r: String)
    ensures
        r@ == trim_start(parts@.3, '/'),
{
    trim_start_char(parts.path.as_str(), '/').to_string()
}

/// The S3 store, and the group's path in it, for a URI that has been taken
/// apart.
pub fn s3_location(uri: &str, parts: &UrlParts, creds: &ZarrCredentialOptions) -> (r: Result<
    (S3Store, String),
    ZarrError,
>)
    requires
        creds.wf(),
    ensures
        match with_path(uri@, Ok(parts@), s3_settings(uri@, creds@)) {
            Ok((store, path)) => r is Ok && r->Ok_0.0@ == store && r->Ok_0.1@ == path,
            Err(e) => r is Err && r->Err_0@ == e,
        },
{
    let access_key_id = override_text(creds, "aws.access_key_id");
    let secret_access_key = override_text(creds, "aws.secret_access_key");
    let session_token = override_text(creds, "aws.session_token");
    let region = override_text(creds, "aws.region");
    let endpoint = override_text(creds, "aws.endpoint");
    let allow_http = match override_flag(creds, "aws.allow_http") {
        Ok(flag) => flag,
        Err(e) => return Err(e),
    };
    let skip_signature = match override_flag(creds, "aws.skip_signature") {
        Ok(flag) => flag,
        Err(e) => return Err(e),
    };
    let store = S3Store {
        url: uri.to_string(),
        access_key_id,
        secret_access_key,
        session_token,
        region,
        endpoint,
        allow_http,
        skip_signature,
    };
    Ok((store, path_in_store(parts)))
}

/// A URI with `gs://` in place of `gcs://`.
fn spell_gs(uri: &str) -> (r: String)
    ensures
        r@ == gs_spelling(uri@),
{
    match strip_prefix(uri, "gcs://") {
        Some(rest) => "gs://".to_string().concat(rest),
        None => uri.to_string(),
    }
}

/// The Google Cloud Storage store, and the group's path in it, for a URI that
/// has been taken apart.
pub fn gcs_location(uri: &str, parts: &UrlParts, creds: &ZarrCredentialOptions) -> (r: (
    GcsStore,
    String,
))
    requires
        creds.wf(),
    ensures
        r.0@ == gcs_settings(uri@, creds@),
        r.1@ == trim_start(parts@.3, '/'),
{
    let store = GcsStore {
        url: spell_gs(uri),
        service_account_path: override_text(creds, "gcp.service_account_path"),
        service_account_key: override_text(creds, "gcp.service_account_key"),
        application_credentials_path: override_text(creds, "gcp.application_credentials_path"),
    };
    (store, path_in_store(parts))
}

/// The Azure store, and the group's path in it, for a URI that has been taken
/// apart.
pub fn azure_location(uri: &str, parts: &UrlParts, creds: &ZarrCredentialOptions) -> (r: Result<
    (AzureStore, String),
    ZarrError,
>)
    requires
        creds.wf(),
    ensures
        match with_path(uri@, Ok(parts@), azure_settings(uri@, creds@)) {
            Ok((store, path)) => r is Ok && r->Ok_0.0@ == store && r->Ok_0.1@ == path,
            Err(e) => r is Err && r->Err_0@ == e,
        },
{
    let account_name = override_text(creds, "azure.account_name");
    let account_key = override_text(creds, "azure.account_key");
    let client_id = override_text(creds, "azure.client_id");
    let client_secret = override_text(creds, "azure.client_secret");
    let tenant_id = override_text(creds, "azure.tenant_id");
    let use_emulator = match override_flag(creds, "azure.use_emulator") {
        Ok(flag) => flag,
        Err(e) => return Err(e),
    };
    let store = AzureStore {
        url: uri.to_string(),
        account_name,
        account_key,
        client_id,
        client_secret,
        tenant_id,
        use_emulator,
    };
    Ok((store, path_in_store(parts)))
}

fn missing_host(uri: &str) -> (r: ZarrError)
    ensures
        r@ == (ZarrErrorView::MissingHost { uri: uri@ }),
{
    ZarrError::MissingHost { uri: uri.to_string() }
}

/// The HTTP store, and the group's path in it, for a URI that has been taken
/// apart.
pub fn http_location(uri: &str, parts: &UrlParts) -> (r: Result<(HttpStore, String), ZarrError>)
    ensures
        match with_path(uri@, Ok(parts@), http_settings(uri@, parts@)) {
            Ok((store, path)) => r is Ok && r->Ok_0.0@ == store && r->Ok_0.1@ == path,
            Err(e) => r is Err && r->Err_0@ == e,
        },
{
    let host = match &parts.host {
        Some(host) => host,
        None => return Err(missing_host(uri)),
    };
    let mut base = parts.scheme.clone();
    base.append("://");
    base.append(host.as_str());
    if let Some(port) = parts.port {
        base.append(":");
        base.append(decimal_text(port as u64).as_str());
    }
    Ok((HttpStore { base }, path_in_store(parts)))
}

/// The S3 store that `s3://bucket/path...` names.
pub fn build_s3(uri: &str, creds: &ZarrCredentialOptions) -> (r: Result<
    (S3Store, String),
    ZarrError,
>)
    requires
        creds.wf(),
    ensures
        match with_path(uri@, url_parts(uri@), s3_settings(uri@, creds@)) {
            Ok((store, path)) => r is Ok && r->Ok_0.0@ == store && r->Ok_0.1@ == path,
            Err(e) => r is Err && r->Err_0@ == e,
        },
{
    match parse_url(uri) {
        Ok(parts) => s3_location(uri, &parts, creds),
        Err(e) => Err(e),
    }
}

/// The Google Cloud Storage store that `gs://bucket/path...` names (also
/// `gcs://`, which is read as `gs://`).
pub fn build_gcs(uri: &str, creds: &ZarrCredentialOptions) -> (r: Result<
    (GcsStore, String),
    ZarrError,
>)
    requires
        creds.wf(),
    ensures
        match with_path(uri@, url_parts(gs_spelling(uri@)), Ok(gcs_settings(uri@, creds@))) {
            Ok((store, path)) => r is Ok && r->Ok_0.0@ == store && r->Ok_0.1@ == path,
            Err(e) => r is Err && r->Err_0@ == e,
        },
{
    match read_url(spell_gs(uri).as_str()) {
        Ok(parts) => Ok(gcs_location(uri, &parts, creds)),
        Err(reason) => Err(ZarrError::InvalidUri { uri: uri.to_string(), reason }),
    }
}

/// The Azure store that `az://`, `abfs://` or `abfss://` names.
pub fn build_azure(uri: &str, creds: &ZarrCredentialOptions) -> (r: Result<
    (AzureStore, String),
    ZarrError,
>)
    requires
        creds.wf(),
    ensures
        match with_path(uri@, url_parts(uri@), azure_settings(uri@, creds@)) {
            Ok((store, path)) => r is Ok && r->Ok_0.0@ == store && r->Ok_0.1@ == path,
            Err(e) => r is Err && r->Err_0@ == e,
        },
{
    match parse_url(uri) {
        Ok(parts) => azure_location(uri, &parts, creds),
        Err(e) => Err(e),
    }
}

/// The HTTP store that `http://` or `https://` names. No credentials apply.
pub fn build_http(uri: &str, _creds: &ZarrCredentialOptions) -> (r: Result<
    (HttpStore, String),
    ZarrError,
>)
    ensures
        match url_parts(uri@) {
            Ok(parts) => match with_path(uri@, Ok(parts), http_settings(uri@, parts)) {
                Ok((store, path)) => r is Ok && r->Ok_0.0@ == store && r->Ok_0.1@ == path,
                Err(e) => r is Err && r->Err_0@ == e,
            },
            Err(reason) => r is Err && r->Err_0@ == (ZarrErrorView::InvalidUri {
                uri: uri@,
                reason,
            }),
        },
{
    match parse_url(uri) {
        Ok(parts) => http_location(uri, &parts),
        Err(e) => Err(e),
    }
}

} // verus!
