//! Fixed-origin, bounded, transactional server discovery: what a refresh
//! shows, when a response or a cached record is accepted, and when a
//! discovered server may be connected to.
use crate::digest::{sha256, sha256_digest};
use crate::directory_cache::{
    legacy_etag_prefix, CacheRead, CachedDirectory, CachedDirectoryView, DirectoryCache,
    DirectoryCacheError,
};
use crate::directory_model::{
    bytes_equal, fresh_at, parse_canonical_u64, parse_directory, DirectEndpoint,
    DirectoryParser, DirectoryServer, DirectoryServerStatus, DirectoryServerView,
    DirectorySnapshot, DirectorySnapshotView, DirectoryValidationError, InstalledCompatibility,
    spec_parse_outcome, DIRECTORY_CLOCK_SKEW_SECONDS,
};
use crate::text::{ascii_chars, canonical_decimal, hex_bytes, hex_lower, push_ascii};
use crate::transport::{
    fixed_request, matching_values, DirectoryRequest, DirectoryRequestView, DirectoryResponse,
    DirectoryTransport, DirectoryTransportError, DIRECTORY_MEDIA_TYPE,
};
use vstd::prelude::*;
use vstd::string::StringSliceAdditionalSpecFns;
use vstd::utf8::encode_utf8;

verus! {

/// The only rendezvous origin a discovered connection may use.
pub const TRUSTED_RENDEZVOUS_ORIGIN: &'static str = "wss://rendezvous.meta.atrinik.org";
/// How long after expiry a directory may still be shown as stale, in seconds.
pub const MAXIMUM_STALE_DISPLAY_SECONDS: u64 = 86400;
/// Longest accepted retry delay, in seconds.
pub const MAXIMUM_RETRY_AFTER_SECONDS: u64 = 86400;

/// What the directory can offer.
#[derive(Clone, Copy, Debug, PartialEq, Eq, Structural)]
pub enum DirectoryAvailability {
    Fresh,
    Empty,
    NoCompatibleServers,
    Stale,
    Unavailable,
}

/// Where the shown directory came from.
#[derive(Clone, Copy, Debug, PartialEq, Eq, Structural)]
pub enum DirectorySource {
    Network,
    Revalidated,
    Cache,
    /// Nothing was shown: no directory could be had.
    NoSource,
}

/// Why a refresh did not produce a fresh network directory.
#[derive(Clone, Copy, Debug, PartialEq, Eq, Structural)]
pub enum DirectoryFailure {
    Offline,
    Timeout,
    Tls,
    RateLimited { retry_after_seconds: u64 },
    HttpUnavailable,
    InvalidMetadata,
    IntegrityMismatch,
    InvalidDirectory(DirectoryValidationError),
    CacheUnavailable,
    CacheCorrupt,
    CacheWriteFailed,
}

/// The stable code of each failure.
pub open spec fn failure_code(failure: DirectoryFailure) -> &'static str {
    match failure {
        DirectoryFailure::Offline => "offline",
        DirectoryFailure::Timeout => "timeout",
        DirectoryFailure::Tls => "tls",
        DirectoryFailure::RateLimited { .. } => "rate_limited",
        DirectoryFailure::HttpUnavailable => "http_unavailable",
        DirectoryFailure::InvalidMetadata => "invalid_metadata",
        DirectoryFailure::IntegrityMismatch => "integrity_mismatch",
        DirectoryFailure::InvalidDirectory(error) => crate::directory_model::validation_error_code(
            error,
        ),
        DirectoryFailure::CacheUnavailable => "cache_unavailable",
        DirectoryFailure::CacheCorrupt => "cache_corrupt",
        DirectoryFailure::CacheWriteFailed => "cache_write_failed",
    }
}

impl DirectoryFailure {
    /// The stable machine-readable code of this failure.
    pub fn code(self) -> (code: &'static str)
        ensures
            code == failure_code(self),
    {
        match self {
            DirectoryFailure::Offline => "offline",
            DirectoryFailure::Timeout => "timeout",
            DirectoryFailure::Tls => "tls",
            DirectoryFailure::RateLimited { .. } => "rate_limited",
            DirectoryFailure::HttpUnavailable => "http_unavailable",
            DirectoryFailure::InvalidMetadata => "invalid_metadata",
            DirectoryFailure::IntegrityMismatch => "integrity_mismatch",
            DirectoryFailure::InvalidDirectory(error) => error.code(),
            DirectoryFailure::CacheUnavailable => "cache_unavailable",
            DirectoryFailure::CacheCorrupt => "cache_corrupt",
            DirectoryFailure::CacheWriteFailed => "cache_write_failed",
        }
    }
}

/// The failure a transport error is reported as.
pub open spec fn transport_failure(error: DirectoryTransportError) -> DirectoryFailure {
    match error {
        DirectoryTransportError::Offline => DirectoryFailure::Offline,
        DirectoryTransportError::Timeout => DirectoryFailure::Timeout,
        DirectoryTransportError::Tls => DirectoryFailure::Tls,
        DirectoryTransportError::Protocol => DirectoryFailure::HttpUnavailable,
        DirectoryTransportError::BodyTooLarge => DirectoryFailure::HttpUnavailable,
    }
}

impl From<DirectoryTransportError> for DirectoryFailure {
    fn from(value: DirectoryTransportError) -> (failure: DirectoryFailure) {
        match value {
            DirectoryTransportError::Offline => DirectoryFailure::Offline,
            DirectoryTransportError::Timeout => DirectoryFailure::Timeout,
            DirectoryTransportError::Tls => DirectoryFailure::Tls,
            DirectoryTransportError::Protocol => DirectoryFailure::HttpUnavailable,
            DirectoryTransportError::BodyTooLarge => DirectoryFailure::HttpUnavailable,
        }
    }
}

impl vstd::std_specs::convert::FromSpecImpl<DirectoryTransportError> for DirectoryFailure {
    open spec fn obeys_from_spec() -> bool {
        true
    }

    open spec fn from_spec(v: DirectoryTransportError) -> DirectoryFailure {
        transport_failure(v)
    }
}

impl From<DirectoryCacheError> for DirectoryFailure {
    fn from(value: DirectoryCacheError) -> (failure: DirectoryFailure) {
        DirectoryFailure::CacheUnavailable
    }
}

impl vstd::std_specs::convert::FromSpecImpl<DirectoryCacheError> for DirectoryFailure {
    open spec fn obeys_from_spec() -> bool {
        true
    }

    open spec fn from_spec(v: DirectoryCacheError) -> DirectoryFailure {
        DirectoryFailure::CacheUnavailable
    }
}

/// What a refresh shows.
#[derive(Clone, Debug, PartialEq, Eq)]
pub struct DirectoryView {
    pub availability: DirectoryAvailability,
    pub source: DirectorySource,
    pub notice: Option<DirectoryFailure>,
    pub received_at: Option<u64>,
    pub snapshot: Option<DirectorySnapshot>,
}

/// Abstract value of a [`DirectoryView`].
pub struct DirectoryViewModel {
    pub availability: DirectoryAvailability,
    pub source: DirectorySource,
    pub notice: Option<DirectoryFailure>,
    pub received_at: Option<u64>,
    pub snapshot: Option<DirectorySnapshotView>,
}

/// The abstract value of an optional snapshot.
pub open spec fn option_snapshot(value: Option<DirectorySnapshot>) -> Option<DirectorySnapshotView> {
    match value {
        Some(snapshot) => Some(snapshot@),
        None => None,
    }
}

impl View for DirectoryView {
    type V = DirectoryViewModel;

    open spec fn view(&self) -> DirectoryViewModel {
        DirectoryViewModel {
            availability: self.availability,
            source: self.source,
            notice: self.notice,
            received_at: self.received_at,
            snapshot: option_snapshot(self.snapshot),
        }
    }
}

/// The message shown for each availability.
pub open spec fn availability_message(availability: DirectoryAvailability) -> &'static str {
    match availability {
        DirectoryAvailability::Fresh => "Server directory is current",
        DirectoryAvailability::Empty => "No public servers are currently listed",
        DirectoryAvailability::NoCompatibleServers =>
            "No listed server matches the installed protocol and content",
        DirectoryAvailability::Stale => "Showing stale server directory data",
        DirectoryAvailability::Unavailable => "Server directory is unavailable",
    }
}

/// Whether rendezvous through the fixed origin may be used.
#[derive(Clone, Copy, Debug, PartialEq, Eq, Structural)]
pub enum RendezvousSupport {
    Disabled,
    FixedV1,
}

/// How to reach a discovered server, pinned to its certificate.
#[derive(Clone, Debug, PartialEq, Eq)]
pub struct DiscoveredConnectionPlan {
    pub server_id: [u8; 32],
    pub certificate_sha256: [u8; 32],
    pub password_required: bool,
    pub direct_endpoint: Option<DirectEndpoint>,
    pub rendezvous_url: Option<String>,
}

/// Why no connection plan could be made.
#[derive(Clone, Copy, Debug, PartialEq, Eq, Structural)]
pub enum ConnectionPlanError {
    DirectoryUnavailable,
    RefreshRequired,
    ServerMissing,
    ServerFull,
    ServerMaintenance,
    NoRoute,
    InvalidConfiguredEndpoint,
}

impl ConnectionPlanError {
    /// Human-readable description of the error.
    pub fn message(&self) -> (text: &'static str)
        ensures
            text == connection_plan_error_message(*self),
    {
        match self {
            ConnectionPlanError::DirectoryUnavailable => "server directory is unavailable",
            ConnectionPlanError::RefreshRequired =>
                "server directory must be refreshed before connecting",
            ConnectionPlanError::ServerMissing => "server is not present in the current directory",
            ConnectionPlanError::ServerFull => "server is full",
            ConnectionPlanError::ServerMaintenance => "server is in maintenance",
            ConnectionPlanError::NoRoute => "server has no supported route",
            ConnectionPlanError::InvalidConfiguredEndpoint =>
                "configured direct endpoint is invalid",
        }
    }
}

/// The fixed human-readable description of each planning error.
pub open spec fn connection_plan_error_message(error: ConnectionPlanError) -> &'static str {
    match error {
        ConnectionPlanError::DirectoryUnavailable => "server directory is unavailable",
        ConnectionPlanError::RefreshRequired =>
            "server directory must be refreshed before connecting",
        ConnectionPlanError::ServerMissing => "server is not present in the current directory",
        ConnectionPlanError::ServerFull => "server is full",
        ConnectionPlanError::ServerMaintenance => "server is in maintenance",
        ConnectionPlanError::NoRoute => "server has no supported route",
        ConnectionPlanError::InvalidConfiguredEndpoint =>
            "configured direct endpoint is invalid",
    }
}

/// The first listed server with the given identifier, searching from `from`.
pub open spec fn server_index(servers: Seq<DirectoryServerView>, id: Seq<u8>, from: int) -> Option<
    int,
>
    decreases servers.len() - from,
{
    if from < 0 || from >= servers.len() {
        None
    } else if servers[from].server_id == id {
        Some(from)
    } else {
        server_index(servers, id, from + 1)
    }
}

/// The fixed rendezvous address of a server, as bytes.
pub open spec fn rendezvous_url_bytes(server_id: Seq<u8>) -> Seq<u8> {
    TRUSTED_RENDEZVOUS_ORIGIN.spec_bytes() + "/v1/servers/".spec_bytes() + hex_lower(server_id)
        + "?role=client".spec_bytes()
}

/// Abstract value of a connection plan.
pub struct ConnectionPlanView {
    pub server_id: Seq<u8>,
    pub certificate_sha256: Seq<u8>,
    pub password_required: bool,
    pub direct_endpoint: Option<crate::directory_model::DirectEndpointView>,
    pub rendezvous_url: Option<Seq<char>>,
}

impl View for DiscoveredConnectionPlan {
    type V = ConnectionPlanView;

    open spec fn view(&self) -> ConnectionPlanView {
        ConnectionPlanView {
            server_id: self.server_id@,
            certificate_sha256: self.certificate_sha256@,
            password_required: self.password_required,
            direct_endpoint: crate::directory_model::option_endpoint(self.direct_endpoint),
            rendezvous_url: crate::directory_model::option_text(self.rendezvous_url),
        }
    }
}

/// The plan for connecting to a server of a directory, or why there is none:
/// only a fresh directory, only a listed online server, and only a route it
/// has (its endpoint, or the fixed rendezvous when enabled).
pub open spec fn spec_connection_plan(
    snapshot: Option<DirectorySnapshotView>,
    server_id: Seq<u8>,
    now: u64,
    rendezvous: RendezvousSupport,
) -> Result<ConnectionPlanView, ConnectionPlanError> {
    match snapshot {
        None => Err(ConnectionPlanError::DirectoryUnavailable),
        Some(snapshot) => if !fresh_at(snapshot.generated_at, snapshot.expires_at, now) {
            Err(ConnectionPlanError::RefreshRequired)
        } else {
            match server_index(snapshot.servers, server_id, 0) {
                None => Err(ConnectionPlanError::ServerMissing),
                Some(i) => {
                    let server = snapshot.servers[i];
                    match server.status {
                        DirectoryServerStatus::Full => Err(ConnectionPlanError::ServerFull),
                        DirectoryServerStatus::Maintenance => Err(
                            ConnectionPlanError::ServerMaintenance,
                        ),
                        DirectoryServerStatus::Online => if server.endpoint is None && rendezvous
                            == RendezvousSupport::Disabled {
                            Err(ConnectionPlanError::NoRoute)
                        } else {
                            Ok(
                                ConnectionPlanView {
                                    server_id: server.server_id,
                                    certificate_sha256: server.certificate_sha256,
                                    password_required: server.password_required,
                                    direct_endpoint: server.endpoint,
                                    rendezvous_url: if rendezvous == RendezvousSupport::FixedV1 {
                                        Some(ascii_chars(rendezvous_url_bytes(server.server_id)))
                                    } else {
                                        None
                                    },
                                },
                            )
                        },
                    }
                },
            }
        },
    }
}

/// Copies an endpoint.
fn copy_endpoint(endpoint: &Option<DirectEndpoint>) -> (copy: Option<DirectEndpoint>)
    ensures
        crate::directory_model::option_endpoint(copy) == crate::directory_model::option_endpoint(
            *endpoint,
        ),
{
    match endpoint {
        Some(value) => Some(DirectEndpoint { hostname: value.hostname.clone(), port: value.port }),
        None => None,
    }
}

/// Appends bytes to a buffer.
fn append_all(out: &mut Vec<u8>, bytes: &[u8])
    ensures
        final(out)@ == old(out)@ + bytes@,
{
    let mut i: usize = 0;
    while i < bytes.len()
        invariant
            0 <= i <= bytes@.len(),
            out@ == old(out)@ + bytes@.take(i as int),
        decreases bytes@.len() - i,
    {
        out.push(bytes[i]);
        assert(bytes@.take(i + 1) =~= bytes@.take(i as int).push(bytes@[i as int]));
        i = i + 1;
    }
    assert(bytes@.take(i as int) =~= bytes@);
}

/// The fixed rendezvous address of a server.
fn rendezvous_url(server_id: &[u8; 32]) -> (url: String)
    ensures
        url@ == ascii_chars(rendezvous_url_bytes(server_id@)),
{
    let mut bytes: Vec<u8> = Vec::new();
    append_all(&mut bytes, TRUSTED_RENDEZVOUS_ORIGIN.as_bytes());
    append_all(&mut bytes, "/v1/servers/".as_bytes());
    let digits = hex_bytes(server_id);
    append_all(&mut bytes, digits.as_slice());
    append_all(&mut bytes, "?role=client".as_bytes());
    let mut url = String::new();
    push_ascii(&mut url, bytes.as_slice());
    assert(url@ =~= ascii_chars(rendezvous_url_bytes(server_id@)));
    url
}

/// The abstract values of a list of servers.
pub open spec fn server_views(servers: Seq<DirectoryServer>) -> Seq<DirectoryServerView> {
    servers.map_values(|server: DirectoryServer| server@)
}

/// The position of the first server with the given identifier.
fn find_server(servers: &Vec<DirectoryServer>, server_id: &[u8; 32]) -> (found: Option<usize>)
    ensures
        match server_index(server_views(servers@), server_id@, 0) {
            Some(i) => found is Some && found->Some_0 as int == i,
            None => found is None,
        },
        found is Some ==> found->Some_0 < servers@.len(),
{
    let ghost views = server_views(servers@);
    let mut i: usize = 0;
    while i < servers.len()
        invariant
            0 <= i <= servers@.len(),
            views == server_views(servers@),
            server_index(views, server_id@, 0) == server_index(views, server_id@, i as int),
        decreases servers@.len() - i,
    {
        assert(views[i as int] == servers@[i as int]@);
        if bytes_equal(&servers[i].server_id, server_id) {
            return Some(i);
        }
        i = i + 1;
    }
    None
}

impl DirectoryView {
    /// The message shown for this view's availability.
    pub fn message(&self) -> (text: &'static str)
        ensures
            text == availability_message(self.availability),
    {
        match self.availability {
            DirectoryAvailability::Fresh => "Server directory is current",
            DirectoryAvailability::Empty => "No public servers are currently listed",
            DirectoryAvailability::NoCompatibleServers =>
                "No listed server matches the installed protocol and content",
            DirectoryAvailability::Stale => "Showing stale server directory data",
            DirectoryAvailability::Unavailable => "Server directory is unavailable",
        }
    }

    /// Plans a connection to a server of this view's directory.
    pub fn connection_plan(
        &self,
        server_id: &[u8; 32],
        now: u64,
        rendezvous: RendezvousSupport,
    ) -> (result: Result<DiscoveredConnectionPlan, ConnectionPlanError>)
        ensures
            match spec_connection_plan(option_snapshot(self.snapshot), server_id@, now, rendezvous) {
                Ok(plan) => result is Ok && result->Ok_0@ == plan,
                Err(error) => result == Err::<DiscoveredConnectionPlan, ConnectionPlanError>(
                    error,
                ),
            },
    {
        let snapshot = match &self.snapshot {
            Some(snapshot) => snapshot,
            None => {
                return Err(ConnectionPlanError::DirectoryUnavailable);
            },
        };
        if !snapshot.fresh_at(now) {
            return Err(ConnectionPlanError::RefreshRequired);
        }
        assert(snapshot@.servers =~= server_views(snapshot.servers@));
        let i = match find_server(&snapshot.servers, server_id) {
            Some(i) => i,
            None => {
                return Err(ConnectionPlanError::ServerMissing);
            },
        };
        let server = &snapshot.servers[i];
        assert(snapshot@.servers[i as int] == server@);

        match server.status {
            DirectoryServerStatus::Online => {},
            DirectoryServerStatus::Full => {
                return Err(ConnectionPlanError::ServerFull);
            },
            DirectoryServerStatus::Maintenance => {
                return Err(ConnectionPlanError::ServerMaintenance);
            },
        }
        let url = match rendezvous {
            RendezvousSupport::Disabled => None,
            RendezvousSupport::FixedV1 => Some(rendezvous_url(&server.server_id)),
        };
        if server.endpoint.is_none() && url.is_none() {
            return Err(ConnectionPlanError::NoRoute);
        }
        Ok(
            DiscoveredConnectionPlan {
                server_id: server.server_id,
                certificate_sha256: server.certificate_sha256,
                password_required: server.password_required,
                direct_endpoint: copy_endpoint(&server.endpoint),
                rendezvous_url: url,
            },
        )
    }
}

/// The entity tag of a directory body: the SHA-256 of the exact body in
/// lowercase hexadecimal, inside the fixed quoted prefix.
pub open spec fn directory_etag_bytes(body: Seq<u8>) -> Seq<u8> {
    legacy_etag_prefix() + hex_lower(sha256(body)) + "\"".spec_bytes()
}

/// The SHA-256 of a directory body.
pub fn directory_body_sha256(body: &[u8]) -> (digest: [u8; 32])
    ensures
        digest@ == sha256(body@),
{
    sha256_digest(body)
}

/// The entity tag of a directory body, as bytes.
fn directory_etag_vec(body: &[u8]) -> (etag: Vec<u8>)
    ensures
        etag@ == directory_etag_bytes(body@),
{
    let digest = directory_body_sha256(body);
    let mut bytes: Vec<u8> = Vec::new();
    append_all(&mut bytes, "\"atrinik-directory-v1-sha256-".as_bytes());
    let digits = hex_bytes(&digest);
    append_all(&mut bytes, digits.as_slice());
    append_all(&mut bytes, "\"".as_bytes());
    bytes
}

/// The entity tag of a directory body.
pub fn directory_etag(body: &[u8]) -> (etag: String)
    ensures
        etag@ == ascii_chars(directory_etag_bytes(body@)),
{
    let bytes = directory_etag_vec(body);
    let mut etag = String::new();
    push_ascii(&mut etag, bytes.as_slice());
    etag
}

/// The etag of a directory body is ASCII.
proof fn lemma_directory_etag_ascii(body: Seq<u8>)
    ensures
        forall|i: int|
            0 <= i < directory_etag_bytes(body).len() ==> #[trigger] directory_etag_bytes(body)[i]
                < 128,
{
    crate::directory_cache::lemma_legacy_prefix_ascii();
    crate::text::lemma_hex_lower_ascii(sha256(body));
    reveal_strlit("\"");
    assert(vstd::utf8::is_ascii_chars("\""@));
    vstd::utf8::is_ascii_chars_encode_utf8("\""@);
    let prefix = legacy_etag_prefix();
    let hex = hex_lower(sha256(body));
    let e = directory_etag_bytes(body);
    assert forall|i: int| 0 <= i < e.len() implies #[trigger] e[i] < 128 by {
        if i < prefix.len() {
            assert(e[i] == prefix[i]);
        } else if i < prefix.len() + hex.len() {
            assert(e[i] == hex[i - prefix.len()]);
        } else {
            assert(e[i] == "\"".spec_bytes()[i - prefix.len() - hex.len()]);
        }
    }
}

// ---------------------------------------------------------------------------
// Response metadata.
// ---------------------------------------------------------------------------
/// The value of the one header named `name`: none, one, or a metadata
/// failure when it is repeated.
pub open spec fn header_lookup(response: DirectoryResponse, name: Seq<u8>) -> Result<
    Option<Seq<char>>,
    DirectoryFailure,
> {
    let values = matching_values(response.headers@, name);
    if values.len() == 0 {
        Ok(None)
    } else if values.len() == 1 {
        Ok(Some(values[0]))
    } else {
        Err(DirectoryFailure::InvalidMetadata)
    }
}

/// The value of the one header named `name`, if present; a repeated header is
/// invalid metadata.
pub fn single_header<'a>(response: &'a DirectoryResponse, name: &str) -> (result: Result<
    Option<&'a str>,
    DirectoryFailure,
>)
    ensures
        match header_lookup(*response, name.spec_bytes()) {
            Ok(None) => result == Ok::<Option<&str>, DirectoryFailure>(None),
            Ok(Some(value)) => result is Ok && result->Ok_0 is Some && result->Ok_0->Some_0@
                == value,
            Err(failure) => result == Err::<Option<&str>, DirectoryFailure>(failure),
        },
{
    let values = response.header_values(name);
    let ghost views = values@.map_values(|value: &str| value@);
    if values.len() == 0 {
        Ok(None)
    } else if values.len() == 1 {
        assert(views[0] == values@[0]@);
        Ok(Some(values[0]))
    } else {
        Err(DirectoryFailure::InvalidMetadata)
    }
}

/// A response must not declare a content encoding.
pub open spec fn encoding_check(response: DirectoryResponse) -> Result<(), DirectoryFailure> {
    match header_lookup(response, "content-encoding".spec_bytes()) {
        Err(failure) => Err(failure),
        Ok(Some(_)) => Err(DirectoryFailure::InvalidMetadata),
        Ok(None) => Ok(()),
    }
}

/// Fails when a response declares a content encoding.
pub fn reject_content_encoding(response: &DirectoryResponse) -> (result: Result<
    (),
    DirectoryFailure,
>)
    ensures
        result == encoding_check(*response),
{
    match single_header(response, "content-encoding") {
        Err(failure) => Err(failure),
        Ok(Some(_)) => Err(DirectoryFailure::InvalidMetadata),
        Ok(None) => Ok(()),
    }
}

/// A declared content length, if any, must be the canonical decimal of the
/// expected length.
pub open spec fn content_length_check(response: DirectoryResponse, expected: usize) -> Result<
    (),
    DirectoryFailure,
> {
    match header_lookup(response, "content-length".spec_bytes()) {
        Err(failure) => Err(failure),
        Ok(None) => Ok(()),
        Ok(Some(value)) => if canonical_decimal(encode_utf8(value)) == Some(expected as u64) {
            Ok(())
        } else {
            Err(DirectoryFailure::InvalidMetadata)
        },
    }
}

/// Checks a declared content length against the expected length.
pub fn validate_content_length(response: &DirectoryResponse, expected: usize) -> (result: Result<
    (),
    DirectoryFailure,
>)
    ensures
        result == content_length_check(*response, expected),
{
    match single_header(response, "content-length") {
        Err(failure) => Err(failure),
        Ok(None) => Ok(()),
        Ok(Some(value)) => match parse_canonical_u64(value.as_bytes()) {
            Some(length) => if length == expected as u64 {
                Ok(())
            } else {
                Err(DirectoryFailure::InvalidMetadata)
            },
            None => Err(DirectoryFailure::InvalidMetadata),
        },
    }
}

/// The second since the Unix epoch that an HTTP date names, as read by
/// `httpdate::parse_http_date`; `None` where it reads no date at or after
/// the epoch.
pub uninterp spec fn http_date_seconds(text: Seq<char>) -> Option<u64>;

/// `httpdate::parse_http_date`, taken as seconds since the Unix epoch. The
/// result depends on the text alone; which texts it accepts is not stated
/// here.
#[verifier::external_body]
fn http_date_unix(value: &str) -> (seconds: Option<u64>)
    ensures
        seconds == http_date_seconds(value@),
{
    match httpdate::parse_http_date(value) {
        Ok(time) => match time.duration_since(std::time::UNIX_EPOCH) {
            Ok(duration) => Some(duration.as_secs()),
            Err(_) => None,
        },
        Err(_) => None,
    }
}

/// The second an HTTP date names, or invalid metadata.
pub fn parse_http_unix(value: &str) -> (result: Result<u64, DirectoryFailure>)
    ensures
        result == (match http_date_seconds(value@) {
            Some(seconds) => Ok::<u64, DirectoryFailure>(seconds),
            None => Err(DirectoryFailure::InvalidMetadata),
        }),
{
    match http_date_unix(value) {
        Some(seconds) => Ok(seconds),
        None => Err(DirectoryFailure::InvalidMetadata),
    }
}

/// A retry delay written as canonical decimal seconds.
pub open spec fn delta_seconds_form(value: Seq<u8>) -> bool {
    value.len() > 0 && (value.len() == 1 || value[0] != 48u8) && crate::text::all_digits(value)
}

/// The retry delay a rate-limited response asks for: canonical seconds, or
/// an HTTP date measured from `now`; between one second and a day.
pub open spec fn spec_retry_after(response: DirectoryResponse, now: u64) -> Result<
    u64,
    DirectoryFailure,
> {
    match header_lookup(response, "retry-after".spec_bytes()) {
        Err(failure) => Err(failure),
        Ok(None) => Err(DirectoryFailure::InvalidMetadata),
        Ok(Some(value)) => {
            let delay = if delta_seconds_form(encode_utf8(value)) {
                canonical_decimal(encode_utf8(value))
            } else {
                match http_date_seconds(value) {
                    Some(seconds) => Some(
                        if seconds > now {
                            (seconds - now) as u64
                        } else {
                            0u64
                        },
                    ),
                    None => None,
                }
            };
            match delay {
                None => Err(DirectoryFailure::InvalidMetadata),
                Some(delay) => if 1 <= delay <= MAXIMUM_RETRY_AFTER_SECONDS {
                    Ok(delay)
                } else {
                    Err(DirectoryFailure::InvalidMetadata)
                },
            }
        },
    }
}

/// Whether a value is written as canonical decimal seconds.
fn is_delta_seconds(value: &[u8]) -> (delta: bool)
    ensures
        delta == delta_seconds_form(value@),
{
    if value.len() == 0 || (value.len() > 1 && value[0] == 48) {
        return false;
    }
    let mut i: usize = 0;
    while i < value.len()
        invariant
            0 <= i <= value@.len(),
            forall|j: int| 0 <= j < i ==> crate::text::is_digit(#[trigger] value@[j]),
        decreases value@.len() - i,
    {
        if value[i] < 48 || value[i] > 57 {
            assert(!crate::text::is_digit(value@[i as int]));
            return false;
        }
        i = i + 1;
    }
    true
}

/// The retry delay of a rate-limited response.
pub fn retry_after_seconds(response: &DirectoryResponse, now: u64) -> (result: Result<
    u64,
    DirectoryFailure,
>)
    ensures
        result == spec_retry_after(*response, now),
{
    let value = match single_header(response, "retry-after") {
        Err(failure) => {
            return Err(failure);
        },
        Ok(None) => {
            return Err(DirectoryFailure::InvalidMetadata);
        },
        Ok(Some(value)) => value,
    };
    let delay = if is_delta_seconds(value.as_bytes()) {
        match parse_canonical_u64(value.as_bytes()) {
            Some(seconds) => seconds,
            None => {
                return Err(DirectoryFailure::InvalidMetadata);
            },
        }
    } else {
        match parse_http_unix(value) {
            Ok(seconds) => seconds.saturating_sub(now),
            Err(failure) => {
                return Err(failure);
            },
        }
    };
    if delay < 1 || delay > MAXIMUM_RETRY_AFTER_SECONDS {
        return Err(DirectoryFailure::InvalidMetadata);
    }
    Ok(delay)
}

// ---------------------------------------------------------------------------
// Accepting a response.
// ---------------------------------------------------------------------------
/// A directory together with the record it was read from and where it came
/// from.
pub struct ValidatedRecord {
    pub record: CachedDirectory,
    pub snapshot: DirectorySnapshot,
    pub source: DirectorySource,
}

/// Abstract value of a [`ValidatedRecord`].
pub struct ValidatedView {
    pub record: CachedDirectoryView,
    pub snapshot: DirectorySnapshotView,
    pub source: DirectorySource,
}

impl View for ValidatedRecord {
    type V = ValidatedView;

    open spec fn view(&self) -> ValidatedView {
        ValidatedView { record: self.record@, snapshot: self.snapshot@, source: self.source }
    }
}

/// The abstract value of an optional validated record.
pub open spec fn option_validated(value: Option<ValidatedRecord>) -> Option<ValidatedView> {
    match value {
        Some(record) => Some(record@),
        None => None,
    }
}

/// The abstract value of a parse result.
pub open spec fn parse_view(parsed: Result<DirectorySnapshot, DirectoryValidationError>) -> Result<
    DirectorySnapshotView,
    DirectoryValidationError,
> {
    match parsed {
        Ok(snapshot) => Ok(snapshot@),
        Err(error) => Err(error),
    }
}

/// The metadata checks a full response must pass before its body is
/// parsed: no content encoding, the directory media type, a matching length
/// if declared, and an entity tag that is the body's.
pub open spec fn spec_body_precheck(response: DirectoryResponse) -> Result<(), DirectoryFailure> {
    match encoding_check(response) {
        Err(failure) => Err(failure),
        Ok(()) => match header_lookup(response, "content-type".spec_bytes()) {
            Err(failure) => Err(failure),
            Ok(content_type) => if content_type != Some(DIRECTORY_MEDIA_TYPE@) {
                Err(DirectoryFailure::InvalidMetadata)
            } else {
                match content_length_check(response, response.body@.len() as usize) {
                    Err(failure) => Err(failure),
                    Ok(()) => match header_lookup(response, "etag".spec_bytes()) {
                        Err(failure) => Err(failure),
                        Ok(None) => Err(DirectoryFailure::InvalidMetadata),
                        Ok(Some(etag)) => if encode_utf8(etag) != directory_etag_bytes(
                            response.body@,
                        ) {
                            Err(DirectoryFailure::IntegrityMismatch)
                        } else {
                            Ok(())
                        },
                    },
                }
            },
        },
    }
}

/// The checks after parsing: the last-modified date is the directory's
/// generation time and the directory is fresh now. Gives the publication
/// second.
pub open spec fn spec_body_postcheck(
    response: DirectoryResponse,
    snapshot: DirectorySnapshotView,
    now: u64,
) -> Result<u64, DirectoryFailure> {
    match header_lookup(response, "last-modified".spec_bytes()) {
        Err(failure) => Err(failure),
        Ok(None) => Err(DirectoryFailure::InvalidMetadata),
        Ok(Some(value)) => match http_date_seconds(value) {
            None => Err(DirectoryFailure::InvalidMetadata),
            Some(modified) => if modified != snapshot.generated_at || !fresh_at(
                snapshot.generated_at,
                snapshot.expires_at,
                now,
            ) {
                Err(DirectoryFailure::InvalidMetadata)
            } else {
                Ok(modified)
            },
        },
    }
}

/// What accepting a full response gives, for a given result of parsing its
/// body: the directory with a record received now, or why it was rejected.
pub open spec fn spec_accept_body(
    response: DirectoryResponse,
    parsed: Result<DirectorySnapshotView, DirectoryValidationError>,
    now: u64,
) -> Result<ValidatedView, DirectoryFailure> {
    match spec_body_precheck(response) {
        Err(failure) => Err(failure),
        Ok(()) => match parsed {
            Err(error) => Err(DirectoryFailure::InvalidDirectory(error)),
            Ok(snapshot) => match spec_body_postcheck(response, snapshot, now) {
                Err(failure) => Err(failure),
                Ok(modified) => Ok(
                    ValidatedView {
                        record: CachedDirectoryView {
                            received_at: now,
                            published_at: Some(modified),
                            etag: directory_etag_bytes(response.body@),
                            body_sha256: sha256(response.body@),
                            body: response.body@,
                        },
                        snapshot,
                        source: DirectorySource::Network,
                    },
                ),
            },
        },
    }
}

/// The abstract value of an acceptance result.
pub open spec fn accepted_view(result: Result<ValidatedRecord, DirectoryFailure>) -> Result<
    ValidatedView,
    DirectoryFailure,
> {
    match result {
        Ok(record) => Ok(record@),
        Err(failure) => Err(failure),
    }
}

/// Checks the metadata of a full response before its body is parsed.
pub fn body_precheck(response: &DirectoryResponse) -> (result: Result<(), DirectoryFailure>)
    ensures
        result == spec_body_precheck(*response),
{
    match reject_content_encoding(response) {
        Err(failure) => {
            return Err(failure);
        },
        Ok(()) => {},
    }
    match single_header(response, "content-type") {
        Err(failure) => {
            return Err(failure);
        },
        Ok(None) => {
            return Err(DirectoryFailure::InvalidMetadata);
        },
        Ok(Some(content_type)) => {
            if !crate::transport::same_text(content_type, DIRECTORY_MEDIA_TYPE) {
                return Err(DirectoryFailure::InvalidMetadata);
            }
        },
    }
    match validate_content_length(response, response.body.len()) {
        Err(failure) => {
            return Err(failure);
        },
        Ok(()) => {},
    }
    let supplied = match single_header(response, "etag") {
        Err(failure) => {
            return Err(failure);
        },
        Ok(None) => {
            return Err(DirectoryFailure::InvalidMetadata);
        },
        Ok(Some(value)) => value,
    };
    let expected = directory_etag_vec(response.body.as_slice());
    if !bytes_equal(supplied.as_bytes(), expected.as_slice()) {
        return Err(DirectoryFailure::IntegrityMismatch);
    }
    Ok(())
}

/// Accepts a full response whose body parsed to `parsed`: the directory with
/// a record received now, or why the response is rejected.
pub fn accept_parsed_body(
    response: DirectoryResponse,
    parsed: Result<DirectorySnapshot, DirectoryValidationError>,
    now: u64,
) -> (result: Result<ValidatedRecord, DirectoryFailure>)
    ensures
        accepted_view(result) == spec_accept_body(response, parse_view(parsed), now),
{
    match body_precheck(&response) {
        Err(failure) => {
            return Err(failure);
        },
        Ok(()) => {},
    }
    let snapshot = match parsed {
        Err(error) => {
            return Err(DirectoryFailure::InvalidDirectory(error));
        },
        Ok(snapshot) => snapshot,
    };
    let modified = match single_header(&response, "last-modified") {
        Err(failure) => {
            return Err(failure);
        },
        Ok(None) => {
            return Err(DirectoryFailure::InvalidMetadata);
        },
        Ok(Some(value)) => match parse_http_unix(value) {
            Ok(seconds) => seconds,
            Err(failure) => {
                return Err(failure);
            },
        },
    };
    if modified != snapshot.generated_at || !snapshot.fresh_at(now) {
        return Err(DirectoryFailure::InvalidMetadata);
    }
    let etag_bytes = directory_etag_vec(response.body.as_slice());
    proof {
        lemma_directory_etag_ascii(response.body@);
    }
    let etag = crate::directory_cache::ascii_string(etag_bytes.as_slice());
    let body_sha256 = directory_body_sha256(response.body.as_slice());
    Ok(
        ValidatedRecord {
            record: CachedDirectory {
                received_at: now,
                published_at: Some(modified),
                etag,
                body_sha256,
                body: response.body,
            },
            snapshot,
            source: DirectorySource::Network,
        },
    )
}

/// What a not-modified response means for the cached record: it may only
/// refresh the receipt time of the record it names, without a body, while
/// that record is still fresh.
pub open spec fn spec_accept_not_modified(
    response: DirectoryResponse,
    cached: Option<ValidatedView>,
    now: u64,
) -> Result<(), DirectoryFailure> {
    match cached {
        None => Err(DirectoryFailure::InvalidMetadata),
        Some(cached) => match encoding_check(response) {
            Err(failure) => Err(failure),
            Ok(()) => if response.body@.len() > 0 {
                Err(DirectoryFailure::InvalidMetadata)
            } else {
                match header_lookup(response, "content-type".spec_bytes()) {
                    Err(failure) => Err(failure),
                    Ok(content_type) => if content_type is Some && content_type != Some(
                        DIRECTORY_MEDIA_TYPE@,
                    ) {
                        Err(DirectoryFailure::InvalidMetadata)
                    } else {
                        match content_length_check(response, 0) {
                            Err(failure) => Err(failure),
                            Ok(()) => match header_lookup(response, "etag".spec_bytes()) {
                                Err(failure) => Err(failure),
                                Ok(None) => Err(DirectoryFailure::InvalidMetadata),
                                Ok(Some(etag)) => if encode_utf8(etag) != cached.record.etag {
                                    Err(DirectoryFailure::IntegrityMismatch)
                                } else {
                                    match header_lookup(response, "last-modified".spec_bytes()) {
                                        Err(failure) => Err(failure),
                                        Ok(last_modified) => if last_modified is Some && (
                                        http_date_seconds(last_modified->Some_0) is None
                                            || http_date_seconds(last_modified->Some_0)->Some_0
                                            != cached.snapshot.generated_at) {
                                            Err(DirectoryFailure::InvalidMetadata)
                                        } else if !fresh_at(
                                            cached.snapshot.generated_at,
                                            cached.snapshot.expires_at,
                                            now,
                                        ) {
                                            Err(DirectoryFailure::InvalidMetadata)
                                        } else {
                                            Ok(())
                                        },
                                    }
                                },
                            },
                        }
                    },
                }
            },
        },
    }
}

/// Checks a not-modified response against the cached record.
pub fn accept_not_modified(
    response: &DirectoryResponse,
    cached: &Option<ValidatedRecord>,
    now: u64,
) -> (result: Result<(), DirectoryFailure>)
    ensures
        result == spec_accept_not_modified(*response, option_validated(*cached), now),
{
    let cached = match cached {
        Some(cached) => cached,
        None => {
            return Err(DirectoryFailure::InvalidMetadata);
        },
    };
    match reject_content_encoding(response) {
        Err(failure) => {
            return Err(failure);
        },
        Ok(()) => {},
    }
    if response.body.len() > 0 {
        return Err(DirectoryFailure::InvalidMetadata);
    }
    match single_header(response, "content-type") {
        Err(failure) => {
            return Err(failure);
        },
        Ok(None) => {},
        Ok(Some(content_type)) => {
            if !crate::transport::same_text(content_type, DIRECTORY_MEDIA_TYPE) {
                return Err(DirectoryFailure::InvalidMetadata);
            }
        },
    }
    match validate_content_length(response, 0) {
        Err(failure) => {
            return Err(failure);
        },
        Ok(()) => {},
    }
    let etag = match single_header(response, "etag") {
        Err(failure) => {
            return Err(failure);
        },
        Ok(None) => {
            return Err(DirectoryFailure::InvalidMetadata);
        },
        Ok(Some(value)) => value,
    };
    if !bytes_equal(etag.as_bytes(), cached.record.etag.as_str().as_bytes()) {
        return Err(DirectoryFailure::IntegrityMismatch);
    }
    match single_header(response, "last-modified") {
        Err(failure) => {
            return Err(failure);
        },
        Ok(None) => {},
        Ok(Some(value)) => match parse_http_unix(value) {
            Err(failure) => {
                return Err(failure);
            },
            Ok(seconds) => {
                if seconds != cached.snapshot.generated_at {
                    return Err(DirectoryFailure::InvalidMetadata);
                }
            },
        },
    }
    if !cached.snapshot.fresh_at(now) {
        return Err(DirectoryFailure::InvalidMetadata);
    }
    Ok(())
}

// ---------------------------------------------------------------------------
// What is shown.
// ---------------------------------------------------------------------------
/// How available a directory is at `now`: stale once not fresh, otherwise by
/// whether it lists compatible servers, only incompatible ones, or none.
pub open spec fn availability_of(snapshot: DirectorySnapshotView, now: u64) -> DirectoryAvailability {
    if !fresh_at(snapshot.generated_at, snapshot.expires_at, now) {
        DirectoryAvailability::Stale
    } else if snapshot.servers.len() > 0 {
        DirectoryAvailability::Fresh
    } else if snapshot.incompatible_servers > 0 {
        DirectoryAvailability::NoCompatibleServers
    } else {
        DirectoryAvailability::Empty
    }
}

/// The view of a directory received at `received_at`.
pub open spec fn spec_view_from_snapshot(
    snapshot: DirectorySnapshotView,
    received_at: u64,
    source: DirectorySource,
    notice: Option<DirectoryFailure>,
    now: u64,
) -> DirectoryViewModel {
    DirectoryViewModel {
        availability: availability_of(snapshot, now),
        source,
        notice,
        received_at: Some(received_at),
        snapshot: Some(snapshot),
    }
}

/// Shows a directory received at `received_at`.
pub fn view_from_snapshot(
    snapshot: DirectorySnapshot,
    received_at: u64,
    source: DirectorySource,
    notice: Option<DirectoryFailure>,
    now: u64,
) -> (view: DirectoryView)
    ensures
        view@ == spec_view_from_snapshot(snapshot@, received_at, source, notice, now),
{
    let availability = if !snapshot.fresh_at(now) {
        DirectoryAvailability::Stale
    } else if snapshot.servers.len() > 0 {
        DirectoryAvailability::Fresh
    } else if snapshot.incompatible_servers > 0 {
        DirectoryAvailability::NoCompatibleServers
    } else {
        DirectoryAvailability::Empty
    };
    DirectoryView {
        availability,
        source,
        notice,
        received_at: Some(received_at),
        snapshot: Some(snapshot),
    }
}

/// What is shown when a refresh failed: the last-known-good directory while
/// fresh; after expiry, stale for at most a day and then hidden; nothing when
/// there is none.
pub open spec fn spec_fallback_view(
    cached: Option<ValidatedView>,
    notice: DirectoryFailure,
    now: u64,
) -> DirectoryViewModel {
    match cached {
        None => DirectoryViewModel {
            availability: DirectoryAvailability::Unavailable,
            source: DirectorySource::NoSource,
            notice: Some(notice),
            received_at: None,
            snapshot: None,
        },
        Some(cached) => if fresh_at(cached.snapshot.generated_at, cached.snapshot.expires_at, now) {
            spec_view_from_snapshot(
                cached.snapshot,
                cached.record.received_at,
                DirectorySource::Cache,
                Some(notice),
                now,
            )
        } else if now <= cached.snapshot.expires_at || now - cached.snapshot.expires_at
            <= MAXIMUM_STALE_DISPLAY_SECONDS {
            DirectoryViewModel {
                availability: DirectoryAvailability::Stale,
                source: DirectorySource::Cache,
                notice: Some(notice),
                received_at: Some(cached.record.received_at),
                snapshot: Some(cached.snapshot),
            }
        } else {
            DirectoryViewModel {
                availability: DirectoryAvailability::Unavailable,
                source: DirectorySource::Cache,
                notice: Some(notice),
                received_at: Some(cached.record.received_at),
                snapshot: None,
            }
        },
    }
}

/// Shows the last-known-good directory after a failed refresh.
pub fn fallback_view(cached: Option<ValidatedRecord>, notice: DirectoryFailure, now: u64) -> (view:
    DirectoryView)
    ensures
        view@ == spec_fallback_view(option_validated(cached), notice, now),
{
    let cached = match cached {
        None => {
            return DirectoryView {
                availability: DirectoryAvailability::Unavailable,
                source: DirectorySource::NoSource,
                notice: Some(notice),
                received_at: None,
                snapshot: None,
            };
        },
        Some(cached) => cached,
    };
    if cached.snapshot.fresh_at(now) {
        return view_from_snapshot(
            cached.snapshot,
            cached.record.received_at,
            DirectorySource::Cache,
            Some(notice),
            now,
        );
    }
    if now.saturating_sub(cached.snapshot.expires_at) <= MAXIMUM_STALE_DISPLAY_SECONDS {
        return DirectoryView {
            availability: DirectoryAvailability::Stale,
            source: DirectorySource::Cache,
            notice: Some(notice),
            received_at: Some(cached.record.received_at),
            snapshot: Some(cached.snapshot),
        };
    }
    DirectoryView {
        availability: DirectoryAvailability::Unavailable,
        source: DirectorySource::Cache,
        notice: Some(notice),
        received_at: Some(cached.record.received_at),
        snapshot: None,
    }
}

// ---------------------------------------------------------------------------
// Choosing the last-known-good record.
// ---------------------------------------------------------------------------
/// Whether a cached record may be used at `now`: it was not received more
/// than the allowed skew in the future and its tag is its body's.
pub open spec fn record_metadata_ok(record: CachedDirectoryView, now: u64) -> bool {
    !(record.received_at > now && record.received_at - now > DIRECTORY_CLOCK_SKEW_SECONDS)
        && record.etag == directory_etag_bytes(record.body)
}

/// The first usable candidate at or after `from`: its metadata is valid and
/// its body parsed.
pub open spec fn first_usable(
    candidates: Seq<CachedDirectoryView>,
    parsed: Seq<Option<Result<DirectorySnapshotView, DirectoryValidationError>>>,
    now: u64,
    from: int,
) -> Option<int>
    decreases candidates.len() - from,
{
    if from < 0 || from >= candidates.len() {
        None
    } else if record_metadata_ok(candidates[from], now) && parsed[from] matches Some(Ok(_)) {
        Some(from)
    } else {
        first_usable(candidates, parsed, now, from + 1)
    }
}

/// The last-known-good record chosen from the candidates a cache offered,
/// given what parsing each usable candidate's body gave, and whether to
/// report cache corruption: the first usable candidate; corruption whenever
/// the cache rejected entries or a candidate before it was unusable.
pub open spec fn spec_choose_cached(
    candidates: Seq<CachedDirectoryView>,
    parsed: Seq<Option<Result<DirectorySnapshotView, DirectoryValidationError>>>,
    rejected_entries: usize,
    now: u64,
) -> (Option<ValidatedView>, Option<DirectoryFailure>) {
    match first_usable(candidates, parsed, now, 0) {
        Some(k) => (
            Some(
                ValidatedView {
                    record: candidates[k],
                    snapshot: parsed[k]->Some_0->Ok_0,
                    source: DirectorySource::Cache,
                },
            ),
            if rejected_entries > 0 || k > 0 {
                Some(DirectoryFailure::CacheCorrupt)
            } else {
                None
            },
        ),
        None => (
            None,
            if rejected_entries > 0 || candidates.len() > 0 {
                Some(DirectoryFailure::CacheCorrupt)
            } else {
                None
            },
        ),
    }
}

/// The abstract values of the parse results of candidates.
pub open spec fn parsed_views(
    parsed: Seq<Option<Result<DirectorySnapshot, DirectoryValidationError>>>,
) -> Seq<Option<Result<DirectorySnapshotView, DirectoryValidationError>>> {
    parsed.map_values(
        |p: Option<Result<DirectorySnapshot, DirectoryValidationError>>| candidate_parse_view(p),
    )
}

/// The abstract value of what parsing one candidate gave.
pub open spec fn candidate_parse_view(
    parsed: Option<Result<DirectorySnapshot, DirectoryValidationError>>,
) -> Option<Result<DirectorySnapshotView, DirectoryValidationError>> {
    match parsed {
        Some(result) => Some(parse_view(result)),
        None => None,
    }
}

/// Whether a cached record may be used at `now`.
pub fn check_record_metadata(record: &CachedDirectory, now: u64) -> (ok: bool)
    ensures
        ok == record_metadata_ok(record@, now),
{
    if record.received_at > now && record.received_at - now > DIRECTORY_CLOCK_SKEW_SECONDS {
        return false;
    }
    let expected = directory_etag_vec(record.body.as_slice());
    bytes_equal(record.etag.as_str().as_bytes(), expected.as_slice())
}

/// Chooses the last-known-good record from a cache's candidates, given what
/// parsing each usable candidate gave.
pub fn choose_cached(
    candidates: Vec<CachedDirectory>,
    parsed: Vec<Option<Result<DirectorySnapshot, DirectoryValidationError>>>,
    rejected_entries: usize,
    now: u64,
) -> (chosen: (Option<ValidatedRecord>, Option<DirectoryFailure>))
    requires
        parsed@.len() == candidates@.len(),
    ensures
        (option_validated(chosen.0), chosen.1) == spec_choose_cached(
            crate::directory_cache::record_views(candidates@),
            parsed_views(parsed@),
            rejected_entries,
            now,
        ),
{
    let ghost cands = crate::directory_cache::record_views(candidates@);
    let ghost parses = parsed_views(parsed@);
    let mut held = candidates;
    let mut results = parsed;
    let mut k: usize = 0;
    while k < held.len()
        invariant
            0 <= k <= candidates@.len(),
            held@ == candidates@,
            results@ == parsed@,
            candidates@.len() == parsed@.len(),
            cands == crate::directory_cache::record_views(candidates@),
            parses == parsed_views(parsed@),
            first_usable(cands, parses, now, 0) == first_usable(cands, parses, now, k as int),
        decreases candidates@.len() - k,
    {
        assert(cands[k as int] == candidates@[k as int]@);
        let usable = check_record_metadata(&held[k], now) && match &results[k] {
            Some(Ok(_)) => true,
            _ => false,
        };
        if usable {
            assert(parses[k as int] == match parsed@[k as int] {
                Some(result) => Some(parse_view(result)),
                None => None,
            });
            assert(first_usable(cands, parses, now, k as int) == Some(k as int));
            let record = held.remove(k);
            let snapshot = match results.remove(k) {
                Some(Ok(snapshot)) => snapshot,
                _ => {
                    return (None, None);
                },
            };
            let notice = if rejected_entries > 0 || k > 0 {
                Some(DirectoryFailure::CacheCorrupt)
            } else {
                None
            };
            return (Some(ValidatedRecord { record, snapshot, source: DirectorySource::Cache }), notice);
        }
        k = k + 1;
    }
    let notice = if rejected_entries > 0 || held.len() > 0 {
        Some(DirectoryFailure::CacheCorrupt)
    } else {
        None
    };
    (None, notice)
}

// ---------------------------------------------------------------------------
// The service.
// ---------------------------------------------------------------------------
/// What a response leads to: a newly accepted directory, or confirmation
/// that the cached one is still current.
pub enum ResponseOutcome {
    Accepted(ValidatedRecord),
    Revalidated,
}

/// Abstract value of a [`ResponseOutcome`].
pub enum OutcomeView {
    Accepted(ValidatedView),
    Revalidated,
}

/// The abstract value of a response result.
pub open spec fn outcome_view(result: Result<ResponseOutcome, DirectoryFailure>) -> Result<
    OutcomeView,
    DirectoryFailure,
> {
    match result {
        Ok(ResponseOutcome::Accepted(record)) => Ok(OutcomeView::Accepted(record@)),
        Ok(ResponseOutcome::Revalidated) => Ok(OutcomeView::Revalidated),
        Err(failure) => Err(failure),
    }
}

/// What a response leads to, for a given result of parsing its body: a full
/// response is accepted or rejected, a not-modified one revalidates the
/// cached record or is rejected, a rate limit reports its delay, and any
/// other status is unavailable.
pub open spec fn spec_process_response(
    response: DirectoryResponse,
    cached: Option<ValidatedView>,
    parsed: Result<DirectorySnapshotView, DirectoryValidationError>,
    now: u64,
) -> Result<OutcomeView, DirectoryFailure> {
    if response.status == 200 {
        match spec_accept_body(response, parsed, now) {
            Ok(record) => Ok(OutcomeView::Accepted(record)),
            Err(failure) => Err(failure),
        }
    } else if response.status == 304 {
        match spec_accept_not_modified(response, cached, now) {
            Ok(()) => Ok(OutcomeView::Revalidated),
            Err(failure) => Err(failure),
        }
    } else if response.status == 429 {
        match spec_retry_after(response, now) {
            Ok(delay) => Err(DirectoryFailure::RateLimited { retry_after_seconds: delay }),
            Err(failure) => Err(failure),
        }
    } else {
        Err(DirectoryFailure::HttpUnavailable)
    }
}

/// A view that a refresh may show at `now`: a directory is shown only with
/// its receipt time; a fresh availability only for a fresh directory and as
/// that directory's availability; a stale one only from the cache, after
/// expiry, and for at most a day; nothing is shown when unavailable; and a
/// view that did not come from the network always carries a notice.
pub open spec fn view_is_consistent(view: DirectoryViewModel, now: u64) -> bool {
    &&& match view.snapshot {
        Some(snapshot) => {
            &&& view.received_at is Some
            &&& if view.availability == DirectoryAvailability::Stale {
                &&& view.source == DirectorySource::Cache
                &&& !fresh_at(snapshot.generated_at, snapshot.expires_at, now)
                &&& (now <= snapshot.expires_at || now - snapshot.expires_at
                    <= MAXIMUM_STALE_DISPLAY_SECONDS)
            } else {
                &&& fresh_at(snapshot.generated_at, snapshot.expires_at, now)
                &&& view.availability == availability_of(snapshot, now)
            }
        },
        None => view.availability == DirectoryAvailability::Unavailable,
    }
    &&& view.source == DirectorySource::NoSource ==> view.received_at is None
    &&& (view.source == DirectorySource::Network || view.source == DirectorySource::Revalidated)
        ==> view.snapshot is Some
    &&& (view.source == DirectorySource::Cache || view.source == DirectorySource::NoSource)
        ==> view.notice is Some
}

/// Discovers servers from the fixed directory, keeping a last-known-good
/// record in a cache.
pub struct DirectoryService<T, C, P> {
    transport: T,
    cache: C,
    parser: P,
    compatibility: InstalledCompatibility,
}

impl<T: DirectoryTransport, C: DirectoryCache, P: DirectoryParser> DirectoryService<T, C, P> {
    /// The transport the service fetches with.
    pub closed spec fn transport_of(&self) -> T {
        self.transport
    }

    /// The cache the service keeps its last-known-good record in.
    pub closed spec fn cache_of(&self) -> C {
        self.cache
    }

    /// The parser the service reads directory bodies with.
    pub closed spec fn parser_of(&self) -> P {
        self.parser
    }

    /// How a refresh of this service went, given what the cache's load gave,
    /// the cache after that load, what the fetch returned and what storing
    /// gave: the cache was loaded; the transport answered the fixed request,
    /// conditional on the tag of the last-known-good record chosen from the
    /// load; a failed fetch or a rejected response leaves the cache as the
    /// load left it and shows the last-known-good record; an accepted or
    /// revalidated directory is stored and shown, with the store failure or
    /// else the cache's notice.
    pub open spec fn refreshed_via(
        &self,
        after: &Self,
        read: Result<CacheRead, DirectoryCacheError>,
        loaded_cache: C,
        fetched: Result<DirectoryResponse, DirectoryTransportError>,
        stored: Result<(), DirectoryCacheError>,
        view: DirectoryViewModel,
        now: u64,
    ) -> bool {
        let loaded = spec_load_cache(self.parser_of(), self.compatibility_of(), read, now);
        let outcome = spec_fetch_outcome(
            self.parser_of(),
            self.compatibility_of(),
            loaded.0,
            fetched,
            now,
        );
        &&& loaded_cache.loaded(&self.cache_of(), read)
        &&& after.transport_of().answered(
            &self.transport_of(),
            spec_conditional_request(loaded.0),
            fetched,
        )
        &&& match spec_settle(outcome, loaded.0, now) {
            Err(failure) => after.cache_of() == loaded_cache && view == spec_fallback_view(
                loaded.0,
                failure,
                now,
            ),
            Ok(record) => after.cache_of().stored(&loaded_cache, record.record, stored) && view
                == spec_view_from_snapshot(
                record.snapshot,
                record.record.received_at,
                record.source,
                if stored is Ok {
                    loaded.1
                } else {
                    Some(DirectoryFailure::CacheWriteFailed)
                },
                now,
            ),
        }
    }

    /// The installed content the service filters servers by.
    pub closed spec fn compatibility_of(&self) -> InstalledCompatibility {
        self.compatibility
    }

    /// A service over a transport, a cache, the directory parser, and the
    /// installed content.
    pub fn new(transport: T, cache: C, parser: P, compatibility: InstalledCompatibility) -> (service:
        Self)
        ensures
            service.transport_of() == transport,
            service.cache_of() == cache,
            service.compatibility_of() == compatibility,
    {
        DirectoryService { transport, cache, parser, compatibility }
    }

    /// The transport, cache and installed content back.
    pub fn into_parts(self) -> (parts: (T, C, InstalledCompatibility))
        ensures
            parts == (self.transport_of(), self.cache_of(), self.compatibility_of()),
    {
        (self.transport, self.cache, self.compatibility)
    }

    /// Chooses the last-known-good record from what the cache's load gave:
    /// each candidate whose metadata is valid is parsed, and the first that
    /// parses is chosen (see [`spec_load_cache`]); a failed load offers
    /// nothing and reports the cache unavailable.
    pub fn load_cache(&self, read: Result<CacheRead, DirectoryCacheError>, now: u64) -> (loaded: (
        Option<ValidatedRecord>,
        Option<DirectoryFailure>,
    ))
        ensures
            P::obeys_parser_spec() ==> (option_validated(loaded.0), loaded.1) == spec_load_cache(
                self.parser_of(),
                self.compatibility_of(),
                read,
                now,
            ),
    {
        let read = match read {
            Err(_) => {
                return (None, Some(DirectoryFailure::CacheUnavailable));
            },
            Ok(read) => read,
        };
        let ghost expected = candidate_parses(
            self.parser,
            crate::directory_cache::record_views(read.candidates@),
            self.compatibility,
            now,
        );
        let mut parsed: Vec<Option<Result<DirectorySnapshot, DirectoryValidationError>>> =
            Vec::new();
        let mut i: usize = 0;
        while i < read.candidates.len()
            invariant
                0 <= i <= read.candidates@.len(),
                parsed@.len() == i,
                expected == candidate_parses(
                    self.parser,
                    crate::directory_cache::record_views(read.candidates@),
                    self.compatibility,
                    now,
                ),
                P::obeys_parser_spec() ==> forall|j: int|
                    0 <= j < i ==> candidate_parse_view(#[trigger] parsed@[j]) == expected[j],
            decreases read.candidates@.len() - i,
        {
            if check_record_metadata(&read.candidates[i], now) {
                let result = parse_directory(
                    &self.parser,
                    read.candidates[i].body.as_slice(),
                    &self.compatibility,
                );
                parsed.push(Some(result));
            } else {
                parsed.push(None);
            }
            proof {
                assert(crate::directory_cache::record_views(read.candidates@)[i as int]
                    == read.candidates@[i as int]@);
                if P::obeys_parser_spec() {
                    assert(candidate_parse_view(parsed@[i as int]) == expected[i as int]);
                }
            }
            i = i + 1;
        }
        proof {
            if P::obeys_parser_spec() {
                assert(parsed_views(parsed@) =~= expected);
            }
        }
        choose_cached(read.candidates, parsed, read.rejected_entries, now)
    }

    /// Accepts a full response: its metadata is checked, its body parsed,
    /// and the parsed directory checked against its metadata.
    pub fn accept_body(&self, response: DirectoryResponse, now: u64) -> (result: Result<
        ValidatedRecord,
        DirectoryFailure,
    >)
        ensures
            exists|parsed: Result<DirectorySnapshotView, DirectoryValidationError>|
                accepted_view(result) == #[trigger] spec_accept_body(response, parsed, now),
            P::obeys_parser_spec() ==> accepted_view(result) == spec_accept_body(
                response,
                body_parse(self.parser_of(), self.compatibility_of(), response),
                now,
            ),
    {
        match body_precheck(&response) {
            Err(failure) => {
                assert(accepted_view(Err(failure)) == spec_accept_body(
                    response,
                    Err(DirectoryValidationError::InvalidJson),
                    now,
                ));
                return Err(failure);
            },
            Ok(()) => {},
        }
        let parsed = parse_directory(&self.parser, response.body.as_slice(), &self.compatibility);
        let ghost parsed_view = parse_view(parsed);
        let result = accept_parsed_body(response, parsed, now);
        assert(accepted_view(result) == spec_accept_body(response, parsed_view, now));
        result
    }

    /// What a response leads to (see [`spec_process_response`]); only a full
    /// response is parsed.
    pub fn process_response(
        &self,
        response: DirectoryResponse,
        cached: &Option<ValidatedRecord>,
        now: u64,
    ) -> (result: Result<ResponseOutcome, DirectoryFailure>)
        ensures
            exists|parsed: Result<DirectorySnapshotView, DirectoryValidationError>|
                outcome_view(result) == #[trigger] spec_process_response(
                    response,
                    option_validated(*cached),
                    parsed,
                    now,
                ),
            P::obeys_parser_spec() ==> outcome_view(result) == spec_process_response(
                response,
                option_validated(*cached),
                body_parse(self.parser_of(), self.compatibility_of(), response),
                now,
            ),
    {
        let ghost placeholder = Err::<DirectorySnapshotView, DirectoryValidationError>(
            DirectoryValidationError::InvalidJson,
        );
        if response.status == 200 {
            let ghost received = response;
            let result = match self.accept_body(response, now) {
                Ok(record) => Ok(ResponseOutcome::Accepted(record)),
                Err(failure) => Err(failure),
            };
            proof {
                let parsed = choose|parsed: Result<DirectorySnapshotView, DirectoryValidationError>|
                    accepted_view(accepted_of(result)) == #[trigger] spec_accept_body(
                        received,
                        parsed,
                        now,
                    );
                assert(outcome_view(result) == spec_process_response(
                    received,
                    option_validated(*cached),
                    parsed,
                    now,
                ));
            }
            result
        } else if response.status == 304 {
            let result = match accept_not_modified(&response, cached, now) {
                Ok(()) => Ok(ResponseOutcome::Revalidated),
                Err(failure) => Err(failure),
            };
            assert(outcome_view(result) == spec_process_response(
                response,
                option_validated(*cached),
                placeholder,
                now,
            ));
            result
        } else if response.status == 429 {
            let result = match retry_after_seconds(&response, now) {
                Ok(delay) => Err(DirectoryFailure::RateLimited { retry_after_seconds: delay }),
                Err(failure) => Err(failure),
            };
            assert(outcome_view(result) == spec_process_response(
                response,
                option_validated(*cached),
                placeholder,
                now,
            ));
            result
        } else {
            assert(outcome_view(Err(DirectoryFailure::HttpUnavailable)) == spec_process_response(
                response,
                option_validated(*cached),
                placeholder,
                now,
            ));
            Err(DirectoryFailure::HttpUnavailable)
        }
    }

    /// Refreshes the directory at `now`: chooses the last-known-good record,
    /// fetches the directory conditionally on that record's tag, stores an
    /// accepted or revalidated directory in the cache and shows it, or, when
    /// the fetch or the response failed, stores nothing and shows the
    /// last-known-good record (see [`DirectoryService::refreshed_via`]).
    pub fn refresh(&mut self, now: u64) -> (view: DirectoryView)
        ensures
            view_is_consistent(view@, now),
            view@.source == DirectorySource::Network || view@.source
                == DirectorySource::Revalidated ==> view@.received_at == Some(now),
            final(self).compatibility_of() == old(self).compatibility_of(),
            final(self).parser_of() == old(self).parser_of(),
            T::obeys_transport_spec() && C::obeys_cache_spec() && P::obeys_parser_spec() ==> exists|
                read: Result<CacheRead, DirectoryCacheError>,
                loaded_cache: C,
                fetched: Result<DirectoryResponse, DirectoryTransportError>,
                stored: Result<(), DirectoryCacheError>,
            |
                #[trigger] old(self).refreshed_via(
                    final(self),
                    read,
                    loaded_cache,
                    fetched,
                    stored,
                    view@,
                    now,
                ),
    {
        let ghost before = *self;
        let read = self.cache.load();
        let ghost read_result = read;
        let ghost loaded_cache = self.cache;
        let (cached, cache_notice) = self.load_cache(read, now);
        let request = conditional_request(&cached);
        let fetched = self.transport.fetch(&request);
        let ghost fetched_result = fetched;
        let outcome = match fetched {
            Err(error) => Err(DirectoryFailure::from(error)),
            Ok(response) => self.process_response(response, &cached, now),
        };
        let current = match outcome {
            Err(failure) => {
                let view = fallback_view(cached, failure, now);
                proof {
                    if T::obeys_transport_spec() && C::obeys_cache_spec() && P::obeys_parser_spec() {
                        assert(before.refreshed_via(
                            self,
                            read_result,
                            loaded_cache,
                            fetched_result,
                            Ok(()),
                            view@,
                            now,
                        ));
                    }
                }
                return view;
            },
            Ok(outcome) => match record_to_keep(outcome, cached, now) {
                Ok(current) => current,
                Err(failure) => {
                    let view = fallback_view(None, failure, now);
                    proof {
                        if T::obeys_transport_spec() && C::obeys_cache_spec() && P::obeys_parser_spec() {
                            assert(before.refreshed_via(
                                self,
                                read_result,
                                loaded_cache,
                                fetched_result,
                                Ok(()),
                                view@,
                                now,
                            ));
                        }
                    }
                    return view;
                },
            },
        };
        let stored = self.cache.store(&current.record);
        let notice = match stored {
            Ok(()) => cache_notice,
            Err(_) => Some(DirectoryFailure::CacheWriteFailed),
        };
        let view = view_from_snapshot(
            current.snapshot,
            current.record.received_at,
            current.source,
            notice,
            now,
        );
        proof {
            if T::obeys_transport_spec() && C::obeys_cache_spec() && P::obeys_parser_spec() {
                assert(before.refreshed_via(
                    self,
                    read_result,
                    loaded_cache,
                    fetched_result,
                    stored,
                    view@,
                    now,
                ));
            }
        }
        view
    }
}

/// The record of an outcome, with a revalidation taken as a rejection.
pub open spec fn accepted_of(result: Result<ResponseOutcome, DirectoryFailure>) -> Result<
    ValidatedRecord,
    DirectoryFailure,
> {
    match result {
        Ok(ResponseOutcome::Accepted(record)) => Ok(record),
        Ok(ResponseOutcome::Revalidated) => Err(DirectoryFailure::InvalidMetadata),
        Err(failure) => Err(failure),
    }
}

/// What parsing each candidate a cache offered gives: nothing for a
/// candidate whose metadata is unusable at `now`, else the snapshot of what
/// the parser returns for its body.
pub open spec fn candidate_parses<P: DirectoryParser>(
    parser: P,
    candidates: Seq<CachedDirectoryView>,
    compatibility: InstalledCompatibility,
    now: u64,
) -> Seq<Option<Result<DirectorySnapshotView, DirectoryValidationError>>> {
    Seq::new(
        candidates.len(),
        |i: int|
            if record_metadata_ok(candidates[i], now) {
                Some(spec_parse_outcome(parser.parsed(candidates[i].body), compatibility))
            } else {
                None
            },
    )
}

/// The last-known-good record and the cache notice a load gives: nothing and
/// the cache's unavailability for a failed load, else the choice among the
/// offered candidates.
pub open spec fn spec_load_cache<P: DirectoryParser>(
    parser: P,
    compatibility: InstalledCompatibility,
    read: Result<CacheRead, DirectoryCacheError>,
    now: u64,
) -> (Option<ValidatedView>, Option<DirectoryFailure>) {
    match read {
        Err(_) => (None, Some(DirectoryFailure::CacheUnavailable)),
        Ok(read) => spec_choose_cached(
            crate::directory_cache::record_views(read.candidates@),
            candidate_parses(
                parser,
                crate::directory_cache::record_views(read.candidates@),
                compatibility,
                now,
            ),
            read.rejected_entries,
            now,
        ),
    }
}

/// The snapshot of what the parser returns for a response's body.
pub open spec fn body_parse<P: DirectoryParser>(
    parser: P,
    compatibility: InstalledCompatibility,
    response: DirectoryResponse,
) -> Result<DirectorySnapshotView, DirectoryValidationError> {
    spec_parse_outcome(parser.parsed(response.body@), compatibility)
}

/// The request a refresh sends: the fixed request, conditional on the tag of
/// the last-known-good record when there is one.
pub open spec fn spec_conditional_request(cached: Option<ValidatedView>) -> DirectoryRequestView {
    fixed_request(
        match cached {
            Some(validated) => Some(validated.record.etag),
            None => None,
        },
    )
}

/// What a fetch leads to: the failure of a failed fetch, or what its
/// response leads to.
pub open spec fn spec_fetch_outcome<P: DirectoryParser>(
    parser: P,
    compatibility: InstalledCompatibility,
    cached: Option<ValidatedView>,
    fetched: Result<DirectoryResponse, DirectoryTransportError>,
    now: u64,
) -> Result<OutcomeView, DirectoryFailure> {
    match fetched {
        Err(error) => Err(transport_failure(error)),
        Ok(response) => spec_process_response(
            response,
            cached,
            body_parse(parser, compatibility, response),
            now,
        ),
    }
}

/// The directory to keep after a successful response: an accepted one as it
/// is, or for a revalidation the cached one received now and marked
/// revalidated; a revalidation with nothing cached keeps nothing.
pub open spec fn spec_kept(outcome: OutcomeView, cached: Option<ValidatedView>, now: u64) -> Result<
    ValidatedView,
    DirectoryFailure,
> {
    match outcome {
        OutcomeView::Accepted(record) => Ok(record),
        OutcomeView::Revalidated => match cached {
            Some(validated) => Ok(
                ValidatedView {
                    record: CachedDirectoryView { received_at: now, ..validated.record },
                    source: DirectorySource::Revalidated,
                    ..validated
                },
            ),
            None => Err(DirectoryFailure::InvalidMetadata),
        },
    }
}

/// The directory a refresh keeps and stores, or the failure it reports.
pub open spec fn spec_settle(
    outcome: Result<OutcomeView, DirectoryFailure>,
    cached: Option<ValidatedView>,
    now: u64,
) -> Result<ValidatedView, DirectoryFailure> {
    match outcome {
        Err(failure) => Err(failure),
        Ok(outcome) => spec_kept(outcome, cached, now),
    }
}

/// The request a refresh sends for the last-known-good record chosen.
pub fn conditional_request(cached: &Option<ValidatedRecord>) -> (request: DirectoryRequest)
    ensures
        request@ == spec_conditional_request(option_validated(*cached)),
{
    let etag = match cached {
        Some(validated) => Some(validated.record.etag.clone()),
        None => None,
    };
    DirectoryRequest::new(etag)
}

/// The directory to keep after a successful response (see [`spec_kept`]).
pub fn record_to_keep(outcome: ResponseOutcome, cached: Option<ValidatedRecord>, now: u64) -> (kept:
    Result<ValidatedRecord, DirectoryFailure>)
    ensures
        accepted_view(kept) == spec_kept(
            outcome_view(Ok::<ResponseOutcome, DirectoryFailure>(outcome))->Ok_0,
            option_validated(cached),
            now,
        ),
{
    match outcome {
        ResponseOutcome::Accepted(record) => Ok(record),
        ResponseOutcome::Revalidated => match cached {
            Some(mut validated) => {
                validated.record.received_at = now;
                validated.source = DirectorySource::Revalidated;
                Ok(validated)
            },
            None => Err(DirectoryFailure::InvalidMetadata),
        },
    }
}

/// Connecting requires a successful refresh: a plan is only ever made from a
/// directory that is fresh at the time of connecting, for the server asked
/// for, pinned to that listed server's certificate; a stale directory is
/// always refused with a refresh request.
pub proof fn law_connection_requires_fresh_directory(
    snapshot: Option<DirectorySnapshotView>,
    server_id: Seq<u8>,
    now: u64,
    rendezvous: RendezvousSupport,
)
    ensures
        spec_connection_plan(snapshot, server_id, now, rendezvous) is Ok ==> {
            let s = snapshot->Some_0;
            let plan = spec_connection_plan(snapshot, server_id, now, rendezvous)->Ok_0;
            &&& snapshot is Some
            &&& fresh_at(s.generated_at, s.expires_at, now)
            &&& plan.server_id == server_id
            &&& exists|i: int|
                0 <= i < s.servers.len() && #[trigger] s.servers[i].server_id == server_id
                    && plan.certificate_sha256 == s.servers[i].certificate_sha256
        },
        snapshot is Some && !fresh_at(snapshot->Some_0.generated_at, snapshot->Some_0.expires_at, now)
            ==> spec_connection_plan(snapshot, server_id, now, rendezvous) == Err::<
            ConnectionPlanView,
            ConnectionPlanError,
        >(ConnectionPlanError::RefreshRequired),
{
    if spec_connection_plan(snapshot, server_id, now, rendezvous) is Ok {
        let s = snapshot->Some_0;
        lemma_server_index_found(s.servers, server_id, 0);
    }
}

/// A found server index points at a server with that identifier.
proof fn lemma_server_index_found(servers: Seq<DirectoryServerView>, id: Seq<u8>, from: int)
    ensures
        server_index(servers, id, from) is Some ==> {
            let i = server_index(servers, id, from)->Some_0;
            0 <= i < servers.len() && servers[i].server_id == id
        },
    decreases servers.len() - from,
{
    if 0 <= from < servers.len() && servers[from].server_id != id {
        lemma_server_index_found(servers, id, from + 1);
    }
}

/// Cache corruption never supplies a conditional request: the record chosen
/// as last-known-good, whose tag a refresh sends as its validator, always
/// has a tag that is its own body's digest, was not received beyond the
/// allowed skew, and parsed.
pub proof fn law_chosen_record_is_verified(
    candidates: Seq<CachedDirectoryView>,
    parsed: Seq<Option<Result<DirectorySnapshotView, DirectoryValidationError>>>,
    rejected_entries: usize,
    now: u64,
)
    ensures
        spec_choose_cached(candidates, parsed, rejected_entries, now).0 is Some ==> {
            let chosen = spec_choose_cached(candidates, parsed, rejected_entries, now).0->Some_0;
            &&& record_metadata_ok(chosen.record, now)
            &&& chosen.record.etag == directory_etag_bytes(chosen.record.body)
            &&& exists|k: int|
                0 <= k < candidates.len() && #[trigger] candidates[k] == chosen.record
                    && parsed[k] == Some(
                    Ok::<DirectorySnapshotView, DirectoryValidationError>(chosen.snapshot),
                )
        },
{
    lemma_first_usable_is_usable(candidates, parsed, now, 0);
}

/// The first usable candidate is usable.
proof fn lemma_first_usable_is_usable(
    candidates: Seq<CachedDirectoryView>,
    parsed: Seq<Option<Result<DirectorySnapshotView, DirectoryValidationError>>>,
    now: u64,
    from: int,
)
    ensures
        first_usable(candidates, parsed, now, from) is Some ==> {
            let k = first_usable(candidates, parsed, now, from)->Some_0;
            &&& 0 <= k < candidates.len()
            &&& record_metadata_ok(candidates[k], now)
            &&& parsed[k] matches Some(Ok(_))
        },
    decreases candidates.len() - from,
{
    if 0 <= from < candidates.len() && !(record_metadata_ok(candidates[from], now)
        && parsed[from] matches Some(Ok(_))) {
        lemma_first_usable_is_usable(candidates, parsed, now, from + 1);
    }
}

/// After a failed refresh a last-known-good directory is shown only while
/// it is fresh or for at most a day after it expired, is never offered for
/// connecting once it is not fresh, and the failure is always reported.
pub proof fn law_fallback_never_hides_the_failure(
    cached: Option<ValidatedView>,
    notice: DirectoryFailure,
    now: u64,
)
    ensures
        spec_fallback_view(cached, notice, now).notice == Some(notice),
        view_is_consistent(spec_fallback_view(cached, notice, now), now),
        spec_fallback_view(cached, notice, now).snapshot is Some ==> (cached is Some && (
        now <= cached->Some_0.snapshot.expires_at || now - cached->Some_0.snapshot.expires_at
            <= MAXIMUM_STALE_DISPLAY_SECONDS)),
{
}


/// A failure with any retry delay forgotten: what its code names.
pub open spec fn failure_kind(failure: DirectoryFailure) -> DirectoryFailure {
    match failure {
        DirectoryFailure::RateLimited { .. } => DirectoryFailure::RateLimited { retry_after_seconds: 0 },
        other => other,
    }
}

/// The kind of failure a code names, told apart by its length and a few of
/// its characters.
pub open spec fn failure_of_code(code: Seq<char>) -> Option<DirectoryFailure> {
    if code.len() == 7 && code[0] == 'o' && code[1] == 'f' && code[2] == 'f' {
        Some(DirectoryFailure::Offline)
    } else if code.len() == 7 && code[0] == 't' && code[1] == 'i' && code[2] == 'm' {
        Some(DirectoryFailure::Timeout)
    } else if code.len() == 3 && code[0] == 't' && code[1] == 'l' && code[2] == 's' {
        Some(DirectoryFailure::Tls)
    } else if code.len() == 12 && code[0] == 'r' && code[2] == 't' && code[8] == 'i' {
        Some(DirectoryFailure::RateLimited { retry_after_seconds: 0 })
    } else if code.len() == 16 && code[0] == 'h' && code[2] == 't' && code[8] == 'v' {
        Some(DirectoryFailure::HttpUnavailable)
    } else if code.len() == 16 && code[0] == 'i' && code[2] == 'v' && code[8] == 'm' {
        Some(DirectoryFailure::InvalidMetadata)
    } else if code.len() == 18 && code[0] == 'i' && code[2] == 't' && code[8] == 'y' {
        Some(DirectoryFailure::IntegrityMismatch)
    } else if code.len() == 17 && code[0] == 'c' && code[2] == 'c' && code[8] == 'a' {
        Some(DirectoryFailure::CacheUnavailable)
    } else if code.len() == 13 && code[0] == 'c' && code[2] == 'c' && code[8] == 'r' {
        Some(DirectoryFailure::CacheCorrupt)
    } else if code.len() == 18 && code[0] == 'c' && code[2] == 'c' && code[8] == 'i' {
        Some(DirectoryFailure::CacheWriteFailed)
    } else {
        match crate::directory_model::error_of_code(code) {
            Some(error) => Some(DirectoryFailure::InvalidDirectory(error)),
            None => None,
        }
    }
}

/// Each kind of failure has a code of its own: the code names the failure
/// back (a rate limit without its delay), so failures of different kinds
/// never share a code.
pub proof fn law_failure_codes_distinct(first: DirectoryFailure, second: DirectoryFailure)
    ensures
        failure_of_code(failure_code(first)@) == Some(failure_kind(first)),
        failure_kind(first) != failure_kind(second) ==> failure_code(first)@ != failure_code(
            second,
        )@,
{
    assert forall|failure: DirectoryFailure|
        failure_of_code(#[trigger] failure_code(failure)@) == Some(failure_kind(failure)) by {
        reveal_strlit("offline");
        assert("offline"@.len() == 7 && "offline"@[0] == 'o' && "offline"@[1] == 'f' && "offline"@[2] == 'f');
        reveal_strlit("timeout");
        assert("timeout"@.len() == 7 && "timeout"@[0] == 't' && "timeout"@[1] == 'i' && "timeout"@[2] == 'm');
        reveal_strlit("tls");
        assert("tls"@.len() == 3 && "tls"@[0] == 't' && "tls"@[1] == 'l' && "tls"@[2] == 's');
        reveal_strlit("rate_limited");
        assert("rate_limited"@.len() == 12 && "rate_limited"@[0] == 'r' && "rate_limited"@[2] == 't' && "rate_limited"@[8] == 'i');
        reveal_strlit("http_unavailable");
        assert("http_unavailable"@.len() == 16 && "http_unavailable"@[0] == 'h' && "http_unavailable"@[2] == 't' && "http_unavailable"@[8] == 'v');
        reveal_strlit("invalid_metadata");
        assert("invalid_metadata"@.len() == 16 && "invalid_metadata"@[0] == 'i' && "invalid_metadata"@[2] == 'v' && "invalid_metadata"@[8] == 'm');
        reveal_strlit("integrity_mismatch");
        assert("integrity_mismatch"@.len() == 18 && "integrity_mismatch"@[0] == 'i' && "integrity_mismatch"@[2] == 't' && "integrity_mismatch"@[8] == 'y');
        reveal_strlit("cache_unavailable");
        assert("cache_unavailable"@.len() == 17 && "cache_unavailable"@[0] == 'c' && "cache_unavailable"@[2] == 'c' && "cache_unavailable"@[8] == 'a');
        reveal_strlit("cache_corrupt");
        assert("cache_corrupt"@.len() == 13 && "cache_corrupt"@[0] == 'c' && "cache_corrupt"@[2] == 'c' && "cache_corrupt"@[8] == 'r');
        reveal_strlit("cache_write_failed");
        assert("cache_write_failed"@.len() == 18 && "cache_write_failed"@[0] == 'c' && "cache_write_failed"@[2] == 'c' && "cache_write_failed"@[8] == 'i');
        match failure {
            DirectoryFailure::InvalidDirectory(error) => {
                reveal_strlit("invalid_json");
                assert("invalid_json"@.len() == 12);
                assert("invalid_json"@[0] == 'i' && "invalid_json"@[2] == 'v' && "invalid_json"@[8] == 'j');
                reveal_strlit("noncanonical_json");
                assert("noncanonical_json"@.len() == 17);
                assert("noncanonical_json"@[0] == 'n' && "noncanonical_json"@[2] == 'n' && "noncanonical_json"@[8] == 'i');
                reveal_strlit("unsupported_schema");
                assert("unsupported_schema"@.len() == 18);
                assert("unsupported_schema"@[0] == 'u' && "unsupported_schema"@[2] == 's' && "unsupported_schema"@[8] == 't');
                reveal_strlit("body_too_large");
                assert("body_too_large"@.len() == 14);
                assert("body_too_large"@[0] == 'b' && "body_too_large"@[2] == 'd');
                reveal_strlit("too_many_servers");
                assert("too_many_servers"@.len() == 16);
                assert("too_many_servers"@[0] == 't' && "too_many_servers"@[2] == 'o' && "too_many_servers"@[8] == '_');
                reveal_strlit("invalid_generation");
                assert("invalid_generation"@.len() == 18);
                assert("invalid_generation"@[0] == 'i' && "invalid_generation"@[2] == 'v' && "invalid_generation"@[8] == 'g');
                reveal_strlit("invalid_freshness");
                assert("invalid_freshness"@.len() == 17);
                assert("invalid_freshness"@[0] == 'i' && "invalid_freshness"@[2] == 'v' && "invalid_freshness"@[8] == 'f');
                reveal_strlit("invalid_identity");
                assert("invalid_identity"@.len() == 16);
                assert("invalid_identity"@[0] == 'i' && "invalid_identity"@[2] == 'v' && "invalid_identity"@[8] == 'i');
                reveal_strlit("invalid_text");
                assert("invalid_text"@.len() == 12);
                assert("invalid_text"@[0] == 'i' && "invalid_text"@[2] == 'v' && "invalid_text"@[8] == 't');
                reveal_strlit("invalid_region");
                assert("invalid_region"@.len() == 14);
                assert("invalid_region"@[0] == 'i' && "invalid_region"@[2] == 'v');
                reveal_strlit("invalid_protocol");
                assert("invalid_protocol"@.len() == 16);
                assert("invalid_protocol"@[0] == 'i' && "invalid_protocol"@[2] == 'v' && "invalid_protocol"@[8] == 'p');
                reveal_strlit("invalid_content");
                assert("invalid_content"@.len() == 15);
                assert("invalid_content"@[0] == 'i' && "invalid_content"@[2] == 'v');
                reveal_strlit("invalid_players");
                assert("invalid_players"@.len() == 15);
                assert("invalid_players"@[0] == 'i' && "invalid_players"@[2] == 'v');
                reveal_strlit("invalid_status");
                assert("invalid_status"@.len() == 14);
                assert("invalid_status"@[0] == 'i' && "invalid_status"@[2] == 'v');
                reveal_strlit("invalid_endpoint");
                assert("invalid_endpoint"@.len() == 16);
                assert("invalid_endpoint"@[0] == 'i' && "invalid_endpoint"@[2] == 'v' && "invalid_endpoint"@[8] == 'e');
                reveal_strlit("unordered_servers");
                assert("unordered_servers"@.len() == 17);
                assert("unordered_servers"@[0] == 'u' && "unordered_servers"@[2] == 'o' && "unordered_servers"@[8] == 'd');
                reveal_strlit("internal_contract");
                assert("internal_contract"@.len() == 17);
                assert("internal_contract"@[0] == 'i' && "internal_contract"@[2] == 't' && "internal_contract"@[8] == '_');
                crate::directory_model::law_validation_error_codes_distinct(error, error);
            },
            _ => {},
        }
    }
    assert(failure_of_code(failure_code(second)@) == Some(failure_kind(second)));
}

/// Whether `k` is the first position listing a server with the identifier.
pub open spec fn first_listed(servers: Seq<DirectoryServerView>, server_id: Seq<u8>, k: int) -> bool {
    &&& 0 <= k < servers.len()
    &&& servers[k].server_id == server_id
    &&& forall|j: int| 0 <= j < k ==> #[trigger] servers[j].server_id != server_id
}

/// The search finds the first listing of the identifier from `from` on, or
/// there is none.
proof fn lemma_server_index_first(servers: Seq<DirectoryServerView>, id: Seq<u8>, from: int)
    requires
        0 <= from,
        forall|j: int| 0 <= j < from ==> #[trigger] servers[j].server_id != id,
    ensures
        match server_index(servers, id, from) {
            Some(k) => first_listed(servers, id, k),
            None => forall|j: int| 0 <= j < servers.len() ==> #[trigger] servers[j].server_id != id,
        },
    decreases servers.len() - from,
{
    if from < servers.len() && servers[from].server_id != id {
        lemma_server_index_first(servers, id, from + 1);
    }
}

/// A connection is planned only to the server first listed under the
/// identifier and only while it is online, to its own identity and
/// certificate; a fresh directory whose first listing is full or in
/// maintenance is refused for exactly that reason, and a fresh directory
/// that does not list the identifier reports it missing.
pub proof fn law_plans_only_for_online_servers(
    snapshot: Option<DirectorySnapshotView>,
    server_id: Seq<u8>,
    now: u64,
    rendezvous: RendezvousSupport,
)
    ensures
        spec_connection_plan(snapshot, server_id, now, rendezvous) is Ok ==> {
            let servers = snapshot->Some_0.servers;
            let plan = spec_connection_plan(snapshot, server_id, now, rendezvous)->Ok_0;
            exists|k: int|
                #[trigger] first_listed(servers, server_id, k) && servers[k].status
                    == DirectoryServerStatus::Online && plan.server_id == server_id
                    && plan.certificate_sha256 == servers[k].certificate_sha256
        },
        snapshot is Some && fresh_at(snapshot->Some_0.generated_at, snapshot->Some_0.expires_at, now)
            ==> forall|k: int| #[trigger]
            first_listed(snapshot->Some_0.servers, server_id, k) ==> {
                &&& snapshot->Some_0.servers[k].status == DirectoryServerStatus::Full
                    ==> spec_connection_plan(snapshot, server_id, now, rendezvous) == Err::<
                    ConnectionPlanView,
                    ConnectionPlanError,
                >(ConnectionPlanError::ServerFull)
                &&& snapshot->Some_0.servers[k].status == DirectoryServerStatus::Maintenance
                    ==> spec_connection_plan(snapshot, server_id, now, rendezvous) == Err::<
                    ConnectionPlanView,
                    ConnectionPlanError,
                >(ConnectionPlanError::ServerMaintenance)
            },
        snapshot is Some && fresh_at(snapshot->Some_0.generated_at, snapshot->Some_0.expires_at, now)
            && (forall|j: int|
            0 <= j < snapshot->Some_0.servers.len() ==> #[trigger] snapshot->Some_0.servers[j].server_id
                != server_id) ==> spec_connection_plan(snapshot, server_id, now, rendezvous)
            == Err::<ConnectionPlanView, ConnectionPlanError>(ConnectionPlanError::ServerMissing),
{
    if let Some(s) = snapshot {
        lemma_server_index_first(s.servers, server_id, 0);
        match server_index(s.servers, server_id, 0) {
            Some(i) => {
                assert forall|k: int| #[trigger] first_listed(s.servers, server_id, k) implies k == i by {
                    if k < i {
                    } else if i < k {
                        assert(s.servers[i].server_id != server_id);
                    }
                }
                if spec_connection_plan(snapshot, server_id, now, rendezvous) is Ok {
                    assert(first_listed(s.servers, server_id, i));
                }
            },
            None => {},
        }
    }
}

/// A plan routes only as the listing allows: it carries the listed server's
/// own direct endpoint and password requirement, a rendezvous address
/// exactly when rendezvous is enabled, and at least one route; an online
/// server without an endpoint is refused as having no route when rendezvous
/// is disabled.
pub proof fn law_plan_routes_follow_the_listing(
    snapshot: Option<DirectorySnapshotView>,
    server_id: Seq<u8>,
    now: u64,
    rendezvous: RendezvousSupport,
)
    ensures
        spec_connection_plan(snapshot, server_id, now, rendezvous) is Ok ==> {
            let servers = snapshot->Some_0.servers;
            let plan = spec_connection_plan(snapshot, server_id, now, rendezvous)->Ok_0;
            &&& (plan.rendezvous_url is Some <==> rendezvous == RendezvousSupport::FixedV1)
            &&& (plan.direct_endpoint is Some || plan.rendezvous_url is Some)
            &&& exists|k: int|
                #[trigger] first_listed(servers, server_id, k) && plan.direct_endpoint
                    == servers[k].endpoint && plan.password_required
                    == servers[k].password_required
        },
        snapshot is Some && fresh_at(snapshot->Some_0.generated_at, snapshot->Some_0.expires_at, now)
            && rendezvous == RendezvousSupport::Disabled ==> forall|k: int| #[trigger]
            first_listed(snapshot->Some_0.servers, server_id, k) && snapshot->Some_0.servers[k].status
                == DirectoryServerStatus::Online && snapshot->Some_0.servers[k].endpoint is None
                ==> spec_connection_plan(snapshot, server_id, now, rendezvous) == Err::<
                ConnectionPlanView,
                ConnectionPlanError,
            >(ConnectionPlanError::NoRoute),
{
    if let Some(s) = snapshot {
        lemma_server_index_first(s.servers, server_id, 0);
        match server_index(s.servers, server_id, 0) {
            Some(i) => {
                assert forall|k: int| #[trigger] first_listed(s.servers, server_id, k) implies k == i by {
                    if i < k {
                        assert(s.servers[i].server_id != server_id);
                    }
                }
                if spec_connection_plan(snapshot, server_id, now, rendezvous) is Ok {
                    assert(first_listed(s.servers, server_id, i));
                }
            },
            None => {},
        }
    }
}

} // verus!
