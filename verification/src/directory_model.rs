//! Bounded adapter from the static-directory wire model to client-owned data.
//!
//! The canonical JSON parser belongs to the released protocol crate; what it
//! returns reaches this module as a [`WireDirectory`] through a
//! [`DirectoryParser`]. Everything after parsing (identity checks, status and
//! endpoint conversion, compatibility filtering, freshness) happens here.
use crate::text::{all_digits, canonical_decimal, is_digit};
use vstd::string::StringSliceAdditionalSpecFns;
use vstd::prelude::*;

verus! {

/// Largest canonical directory body, in bytes.
pub const DIRECTORY_BODY_BYTES_LIMIT: usize = 262144;
/// Largest number of servers in one directory.
pub const DIRECTORY_SERVER_LIMIT: usize = 512;
/// Largest allowed lead of the directory's generation time over the local clock.
pub const DIRECTORY_CLOCK_SKEW_SECONDS: u64 = 300;
/// The only protocol major version this client speaks.
pub const PROTOCOL_MAJOR: u32 = 1;
/// Largest protocol minor version.
pub const PROTOCOL_MINOR_LIMIT: u32 = 65535;
/// Longest content identifier, in bytes.
pub const CONTENT_ID_BYTES_LIMIT: usize = 64;

/// Why a directory was rejected.
#[derive(Clone, Copy, Debug, PartialEq, Eq, Structural)]
pub enum DirectoryValidationError {
    InvalidJson,
    NonCanonicalJson,
    UnsupportedSchema,
    BodyTooLarge,
    TooManyServers,
    InvalidGeneration,
    InvalidFreshness,
    InvalidIdentity,
    InvalidText,
    InvalidRegion,
    InvalidProtocol,
    InvalidContent,
    InvalidPlayers,
    InvalidStatus,
    InvalidEndpoint,
    UnorderedServers,
    InternalContract,
}

/// The stable code of each validation error.
pub open spec fn validation_error_code(error: DirectoryValidationError) -> &'static str {
    match error {
        DirectoryValidationError::InvalidJson => "invalid_json",
        DirectoryValidationError::NonCanonicalJson => "noncanonical_json",
        DirectoryValidationError::UnsupportedSchema => "unsupported_schema",
        DirectoryValidationError::BodyTooLarge => "body_too_large",
        DirectoryValidationError::TooManyServers => "too_many_servers",
        DirectoryValidationError::InvalidGeneration => "invalid_generation",
        DirectoryValidationError::InvalidFreshness => "invalid_freshness",
        DirectoryValidationError::InvalidIdentity => "invalid_identity",
        DirectoryValidationError::InvalidText => "invalid_text",
        DirectoryValidationError::InvalidRegion => "invalid_region",
        DirectoryValidationError::InvalidProtocol => "invalid_protocol",
        DirectoryValidationError::InvalidContent => "invalid_content",
        DirectoryValidationError::InvalidPlayers => "invalid_players",
        DirectoryValidationError::InvalidStatus => "invalid_status",
        DirectoryValidationError::InvalidEndpoint => "invalid_endpoint",
        DirectoryValidationError::UnorderedServers => "unordered_servers",
        DirectoryValidationError::InternalContract => "internal_contract",
    }
}

impl DirectoryValidationError {
    /// The stable machine-readable code of this error.
    pub fn code(self) -> (code: &'static str)
        ensures
            code == validation_error_code(self),
    {
        match self {
            DirectoryValidationError::InvalidJson => "invalid_json",
            DirectoryValidationError::NonCanonicalJson => "noncanonical_json",
            DirectoryValidationError::UnsupportedSchema => "unsupported_schema",
            DirectoryValidationError::BodyTooLarge => "body_too_large",
            DirectoryValidationError::TooManyServers => "too_many_servers",
            DirectoryValidationError::InvalidGeneration => "invalid_generation",
            DirectoryValidationError::InvalidFreshness => "invalid_freshness",
            DirectoryValidationError::InvalidIdentity => "invalid_identity",
            DirectoryValidationError::InvalidText => "invalid_text",
            DirectoryValidationError::InvalidRegion => "invalid_region",
            DirectoryValidationError::InvalidProtocol => "invalid_protocol",
            DirectoryValidationError::InvalidContent => "invalid_content",
            DirectoryValidationError::InvalidPlayers => "invalid_players",
            DirectoryValidationError::InvalidStatus => "invalid_status",
            DirectoryValidationError::InvalidEndpoint => "invalid_endpoint",
            DirectoryValidationError::UnorderedServers => "unordered_servers",
            DirectoryValidationError::InternalContract => "internal_contract",
        }
    }
}

/// A server endpoint as the protocol parser returns it.
#[derive(Clone, Debug, PartialEq, Eq)]
pub struct WireEndpoint {
    pub hostname: String,
    pub port: u32,
}

/// A server record as the protocol parser returns it.
#[derive(Clone, Debug, PartialEq, Eq)]
pub struct WireServer {
    pub server_id: Vec<u8>,
    pub certificate_sha256: Vec<u8>,
    pub name: String,
    pub description: String,
    pub region: Option<String>,
    pub protocol_major: u32,
    pub protocol_minor: u32,
    pub content_id: String,
    pub content_revision_sha256: Vec<u8>,
    pub players_online: u32,
    pub players_capacity: u32,
    pub status: i32,
    pub password_required: bool,
    pub endpoint: Option<WireEndpoint>,
}

/// A directory snapshot as the protocol parser returns it.
#[derive(Clone, Debug, PartialEq, Eq)]
pub struct WireDirectory {
    pub generation: u64,
    pub generated_at: u64,
    pub expires_at: u64,
    pub servers: Vec<WireServer>,
}

/// The released canonical directory parser. It returns a complete validated
/// snapshot (schema, bounds, identity, ordering and endpoint syntax checked)
/// or the first error, and never a partial model.
pub trait DirectoryParser {
    /// Whether this parser states its behaviour through
    /// [`DirectoryParser::parsed`]; an implementation that does not override
    /// it states nothing.
    open spec fn obeys_parser_spec() -> bool {
        false
    }

    /// What the parser returns for a body: a function of the body alone.
    open spec fn parsed(&self, input: Seq<u8>) -> Result<WireDirectory, DirectoryValidationError> {
        Err(DirectoryValidationError::InvalidJson)
    }

    /// Parses a body; a body over the shared body limit is rejected as too
    /// large.
    fn parse_directory_json(&self, input: &[u8]) -> (result: Result<
        WireDirectory,
        DirectoryValidationError,
    >)
        ensures
            Self::obeys_parser_spec() ==> result == self.parsed(input@),
            Self::obeys_parser_spec() && input@.len() > DIRECTORY_BODY_BYTES_LIMIT ==> result
                == Err::<WireDirectory, DirectoryValidationError>(
                DirectoryValidationError::BodyTooLarge,
            ),
    ;
}

/// What content the installed client can play.
#[derive(Clone, Debug, PartialEq, Eq)]
pub enum InstalledCompatibility {
    Unavailable,
    Exact { protocol_minor: u32, content_id: String, content_revision_sha256: [u8; 32] },
}

/// A lowercase ASCII letter or digit.
pub open spec fn lower_alphanumeric(b: u8) -> bool {
    (97 <= b <= 122) || is_digit(b)
}

/// A canonical content identifier: one to 64 bytes, lowercase letters and
/// digits, with `.`, `_` and `-` allowed only between the first and last byte.
pub open spec fn valid_content_id(id: Seq<u8>) -> bool {
    &&& 1 <= id.len() <= CONTENT_ID_BYTES_LIMIT
    &&& lower_alphanumeric(id[0])
    &&& lower_alphanumeric(id.last())
    &&& forall|i: int|
        0 < i < id.len() - 1 ==> lower_alphanumeric(#[trigger] id[i]) || id[i] == 46u8 || id[i]
            == 95u8 || id[i] == 45u8
}

/// A lowercase hexadecimal ASCII digit.
pub open spec fn is_lower_hex(b: u8) -> bool {
    is_digit(b) || (97 <= b <= 102)
}

/// The value of a lowercase hexadecimal digit.
pub open spec fn hex_value(b: u8) -> nat {
    if is_digit(b) {
        (b - 48) as nat
    } else {
        (b - 87) as nat
    }
}

/// The bytes that a string of lowercase hexadecimal digit pairs encodes.
pub open spec fn hex_decode(digits: Seq<u8>) -> Seq<u8> {
    Seq::new(
        digits.len() / 2,
        |i: int| (hex_value(digits[2 * i]) * 16 + hex_value(digits[2 * i + 1])) as u8,
    )
}

/// Exactly 64 lowercase hexadecimal digits.
pub open spec fn is_sha256_hex(digits: Seq<u8>) -> bool {
    digits.len() == 64 && forall|i: int| 0 <= i < 64 ==> is_lower_hex(#[trigger] digits[i])
}

/// The compatibility value for a protocol minor, content identifier and content
/// revision, or why they are invalid.
pub open spec fn spec_exact(protocol_minor: u32, content_id: Seq<char>, content_id_bytes: Seq<u8>, digest: Seq<u8>) -> Result<
    (u32, Seq<char>, Seq<u8>),
    DirectoryValidationError,
> {
    if protocol_minor > PROTOCOL_MINOR_LIMIT {
        Err(DirectoryValidationError::InvalidProtocol)
    } else if !valid_content_id(content_id_bytes) {
        Err(DirectoryValidationError::InvalidContent)
    } else {
        Ok((protocol_minor, content_id, digest))
    }
}

/// Whether a compatibility value is exactly the given triple.
pub open spec fn is_exact(
    compatibility: InstalledCompatibility,
    exact: (u32, Seq<char>, Seq<u8>),
) -> bool {
    match compatibility {
        InstalledCompatibility::Exact { protocol_minor, content_id, content_revision_sha256 } => {
            &&& protocol_minor == exact.0
            &&& content_id@ == exact.1
            &&& content_revision_sha256@ == exact.2
        },
        InstalledCompatibility::Unavailable => false,
    }
}

fn lower_alphanumeric_exec(b: u8) -> (result: bool)
    ensures
        result == lower_alphanumeric(b),
{
    (97 <= b && b <= 122) || (48 <= b && b <= 57)
}

fn valid_content_id_exec(id: &[u8]) -> (valid: bool)
    ensures
        valid == valid_content_id(id@),
{
    if id.len() == 0 || id.len() > CONTENT_ID_BYTES_LIMIT {
        return false;
    }
    if !lower_alphanumeric_exec(id[0]) || !lower_alphanumeric_exec(id[id.len() - 1]) {
        return false;
    }
    let mut i: usize = 1;
    while i + 1 < id.len()
        invariant
            1 <= i <= id@.len(),
            1 <= id@.len() <= CONTENT_ID_BYTES_LIMIT,
            forall|j: int|
                0 < j < i ==> lower_alphanumeric(#[trigger] id@[j]) || id@[j] == 46u8 || id@[j]
                    == 95u8 || id@[j] == 45u8,
        decreases id@.len() - i,
    {
        let b = id[i];
        if !(lower_alphanumeric_exec(b) || b == 46 || b == 95 || b == 45) {
            return false;
        }
        i = i + 1;
    }
    true
}

fn hex_value_exec(b: u8) -> (value: u8)
    requires
        is_lower_hex(b),
    ensures
        value == hex_value(b),
        value < 16,
{
    if 48 <= b && b <= 57 {
        b - 48
    } else {
        b - 87
    }
}

/// Decodes 64 lowercase hexadecimal digits into a 32-byte digest.
pub fn decode_sha256_hex(digits: &[u8]) -> (digest: Option<[u8; 32]>)
    ensures
        match digest {
            Some(value) => is_sha256_hex(digits@) && value@ == hex_decode(digits@),
            None => !is_sha256_hex(digits@),
        },
{
    if digits.len() != 64 {
        return None;
    }
    let mut k: usize = 0;
    while k < 64
        invariant
            digits@.len() == 64,
            0 <= k <= 64,
            forall|i: int| 0 <= i < k ==> is_lower_hex(#[trigger] digits@[i]),
        decreases 64 - k,
    {
        let b = digits[k];
        if !((48 <= b && b <= 57) || (97 <= b && b <= 102)) {
            return None;
        }
        k = k + 1;
    }
    let mut output: [u8; 32] = [0u8; 32];
    let mut i: usize = 0;
    while i < 32
        invariant
            digits@.len() == 64,
            is_sha256_hex(digits@),
            0 <= i <= 32,
            forall|j: int| 0 <= j < i ==> #[trigger] output@[j] == hex_decode(digits@)[j],
        decreases 32 - i,
    {
        let high = hex_value_exec(digits[2 * i]);
        let low = hex_value_exec(digits[2 * i + 1]);
        output[i] = high * 16 + low;
        i = i + 1;
    }
    assert(output@ =~= hex_decode(digits@));
    Some(output)
}

impl InstalledCompatibility {
    /// The exact installed protocol minor, content identifier and content revision.
    pub fn exact(protocol_minor: u32, content_id: &str, content_revision_sha256: [u8; 32]) -> (result:
        Result<InstalledCompatibility, DirectoryValidationError>)
        ensures
            match spec_exact(
                protocol_minor,
                content_id@,
                content_id.spec_bytes(),
                content_revision_sha256@,
            ) {
                Ok(exact) => result is Ok && is_exact(result->Ok_0, exact),
                Err(error) => result == Err::<InstalledCompatibility, DirectoryValidationError>(
                    error,
                ),
            },
    {
        if protocol_minor > PROTOCOL_MINOR_LIMIT {
            return Err(DirectoryValidationError::InvalidProtocol);
        }
        if !valid_content_id_exec(content_id.as_bytes()) {
            return Err(DirectoryValidationError::InvalidContent);
        }
        Ok(
            InstalledCompatibility::Exact {
                protocol_minor,
                content_id: content_id.to_owned(),
                content_revision_sha256,
            },
        )
    }

    /// Like [`InstalledCompatibility::exact`], from canonical text: a decimal
    /// minor without leading zeros and 64 lowercase hexadecimal digits.
    pub fn exact_hex(protocol_minor: &str, content_id: &str, content_revision_sha256: &str) -> (result:
        Result<InstalledCompatibility, DirectoryValidationError>)
        ensures
            ({
                let minor = canonical_decimal(protocol_minor.spec_bytes());
                let digest = content_revision_sha256.spec_bytes();
                if minor is None || minor->Some_0 > u32::MAX {
                    result == Err::<InstalledCompatibility, DirectoryValidationError>(
                        DirectoryValidationError::InvalidProtocol,
                    )
                } else if !is_sha256_hex(digest) {
                    result == Err::<InstalledCompatibility, DirectoryValidationError>(
                        DirectoryValidationError::InvalidContent,
                    )
                } else {
                    match spec_exact(
                        minor->Some_0 as u32,
                        content_id@,
                        content_id.spec_bytes(),
                        hex_decode(digest),
                    ) {
                        Ok(exact) => result is Ok && is_exact(result->Ok_0, exact),
                        Err(error) => result == Err::<
                            InstalledCompatibility,
                            DirectoryValidationError,
                        >(error),
                    }
                }
            }),
    {
        let minor = match parse_canonical_u64(protocol_minor.as_bytes()) {
            Some(value) => value,
            None => {
                return Err(DirectoryValidationError::InvalidProtocol);
            },
        };
        if minor > 4294967295 {
            return Err(DirectoryValidationError::InvalidProtocol);
        }
        let digest = match decode_sha256_hex(content_revision_sha256.as_bytes()) {
            Some(value) => value,
            None => {
                return Err(DirectoryValidationError::InvalidContent);
            },
        };
        InstalledCompatibility::exact(minor as u32, content_id, digest)
    }
}

/// Parses a canonical unsigned decimal that fits in 64 bits.
pub fn parse_canonical_u64(digits: &[u8]) -> (value: Option<u64>)
    ensures
        value == canonical_decimal(digits@),
{
    let ghost s = digits@;
    if digits.len() == 0 || (digits.len() > 1 && digits[0] == 48) {
        return None;
    }
    let mut value: u64 = 0;
    let mut i: usize = 0;
    while i < digits.len()
        invariant
            s == digits@,
            s.len() >= 1,
            0 <= i <= s.len(),
            all_digits(s.take(i as int)),
            value == crate::text::digits_value(s.take(i as int)),
        decreases s.len() - i,
    {
        let b = digits[i];
        assert(s.take(i + 1).drop_last() =~= s.take(i as int));
        if !(48 <= b && b <= 57) {
            assert(!all_digits(s));
            return None;
        }
        let d = (b - 48) as u64;
        if value > (18446744073709551615 - d) / 10 {
            proof {
                assert(value * 10 + d > u64::MAX) by (nonlinear_arith)
                    requires
                        value > (18446744073709551615 - d) / 10,
                        d <= 9,
                ;
                assert(crate::text::digits_value(s.take(i + 1)) == value * 10 + d);
                crate::text::lemma_prefix_exceeds(s, i as int + 1);
            }
            return None;
        }
        assert(value * 10 + d <= u64::MAX) by (nonlinear_arith)
            requires
                value <= (18446744073709551615 - d) / 10,
                d <= 9,
        ;
        value = value * 10 + d;
        assert(all_digits(s.take(i + 1)));
        i = i + 1;
    }
    assert(s.take(i as int) =~= s);
    Some(value)
}

/// Public availability of a listed server.
#[derive(Clone, Copy, Debug, PartialEq, Eq, Structural)]
pub enum DirectoryServerStatus {
    Online,
    Full,
    Maintenance,
}

/// An operator-published routing hint; never an identity proof.
#[derive(Clone, Debug, PartialEq, Eq)]
pub struct DirectEndpoint {
    pub hostname: String,
    pub port: u16,
}

/// A compatible, validated server listing.
#[derive(Clone, Debug, PartialEq, Eq)]
pub struct DirectoryServer {
    pub server_id: [u8; 32],
    pub certificate_sha256: [u8; 32],
    pub name: String,
    pub description: String,
    pub region: Option<String>,
    pub protocol_minor: u32,
    pub content_id: String,
    pub content_revision_sha256: [u8; 32],
    pub players_online: u32,
    pub players_capacity: u32,
    pub status: DirectoryServerStatus,
    pub password_required: bool,
    pub endpoint: Option<DirectEndpoint>,
}

/// A validated directory, holding only compatible servers.
#[derive(Clone, Debug, PartialEq, Eq)]
pub struct DirectorySnapshot {
    pub generation: u64,
    pub generated_at: u64,
    pub expires_at: u64,
    pub servers: Vec<DirectoryServer>,
    pub incompatible_servers: usize,
}

/// Abstract value of a [`DirectEndpoint`].
pub struct DirectEndpointView {
    pub hostname: Seq<char>,
    pub port: u16,
}

/// Abstract value of a [`DirectoryServer`].
pub struct DirectoryServerView {
    pub server_id: Seq<u8>,
    pub certificate_sha256: Seq<u8>,
    pub name: Seq<char>,
    pub description: Seq<char>,
    pub region: Option<Seq<char>>,
    pub protocol_minor: u32,
    pub content_id: Seq<char>,
    pub content_revision_sha256: Seq<u8>,
    pub players_online: u32,
    pub players_capacity: u32,
    pub status: DirectoryServerStatus,
    pub password_required: bool,
    pub endpoint: Option<DirectEndpointView>,
}

/// Abstract value of a [`DirectorySnapshot`].
pub struct DirectorySnapshotView {
    pub generation: u64,
    pub generated_at: u64,
    pub expires_at: u64,
    pub servers: Seq<DirectoryServerView>,
    pub incompatible_servers: nat,
}

/// The abstract value of an optional string.
pub open spec fn option_text(value: Option<String>) -> Option<Seq<char>> {
    match value {
        Some(text) => Some(text@),
        None => None,
    }
}

impl View for DirectEndpoint {
    type V = DirectEndpointView;

    open spec fn view(&self) -> DirectEndpointView {
        DirectEndpointView { hostname: self.hostname@, port: self.port }
    }
}

/// The abstract value of an optional endpoint.
pub open spec fn option_endpoint(value: Option<DirectEndpoint>) -> Option<DirectEndpointView> {
    match value {
        Some(endpoint) => Some(endpoint@),
        None => None,
    }
}

impl View for DirectoryServer {
    type V = DirectoryServerView;

    open spec fn view(&self) -> DirectoryServerView {
        DirectoryServerView {
            server_id: self.server_id@,
            certificate_sha256: self.certificate_sha256@,
            name: self.name@,
            description: self.description@,
            region: option_text(self.region),
            protocol_minor: self.protocol_minor,
            content_id: self.content_id@,
            content_revision_sha256: self.content_revision_sha256@,
            players_online: self.players_online,
            players_capacity: self.players_capacity,
            status: self.status,
            password_required: self.password_required,
            endpoint: option_endpoint(self.endpoint),
        }
    }
}

impl View for DirectorySnapshot {
    type V = DirectorySnapshotView;

    open spec fn view(&self) -> DirectorySnapshotView {
        DirectorySnapshotView {
            generation: self.generation,
            generated_at: self.generated_at,
            expires_at: self.expires_at,
            servers: self.servers@.map_values(|server: DirectoryServer| server@),
            incompatible_servers: self.incompatible_servers as nat,
        }
    }
}

/// A directory is usable at `now` when it was not generated more than the
/// allowed skew in the future and has not yet expired.
pub open spec fn fresh_at(generated_at: u64, expires_at: u64, now: u64) -> bool {
    !(generated_at > now && generated_at - now > DIRECTORY_CLOCK_SKEW_SECONDS) && now < expires_at
}

impl DirectorySnapshot {
    /// Whether the snapshot may be used at `now` (see [`fresh_at`]).
    pub fn fresh_at(&self, now: u64) -> (fresh: bool)
        ensures
            fresh == fresh_at(self.generated_at, self.expires_at, now),
    {
        if self.generated_at > now && self.generated_at - now > DIRECTORY_CLOCK_SKEW_SECONDS {
            return false;
        }
        now < self.expires_at
    }
}

/// Whether a parsed server matches the installed protocol and content
/// exactly. The parser only returns servers it validated, and for those the
/// protocol's compatibility rule is exactly this comparison.
pub open spec fn server_compatible(compatibility: InstalledCompatibility, server: WireServer) -> bool {
    match compatibility {
        InstalledCompatibility::Unavailable => false,
        InstalledCompatibility::Exact { protocol_minor, content_id, content_revision_sha256 } => {
            &&& server.protocol_major == PROTOCOL_MAJOR
            &&& server.protocol_minor == protocol_minor
            &&& server.content_id@ == content_id@
            &&& server.content_revision_sha256@ == content_revision_sha256@
        },
    }
}

/// The client status of a wire status code.
pub open spec fn status_of(code: i32) -> Option<DirectoryServerStatus> {
    if code == 1 {
        Some(DirectoryServerStatus::Online)
    } else if code == 2 {
        Some(DirectoryServerStatus::Full)
    } else if code == 3 {
        Some(DirectoryServerStatus::Maintenance)
    } else {
        None
    }
}

/// The client endpoint of a wire endpoint, or why its port is unusable.
pub open spec fn spec_convert_endpoint(endpoint: WireEndpoint) -> Result<
    DirectEndpointView,
    DirectoryValidationError,
> {
    if endpoint.port == 0 || endpoint.port > u16::MAX {
        Err(DirectoryValidationError::InvalidEndpoint)
    } else {
        Ok(DirectEndpointView { hostname: endpoint.hostname@, port: endpoint.port as u16 })
    }
}

/// The client-owned server of a parsed server, or why it cannot be represented.
pub open spec fn spec_convert_server(server: WireServer) -> Result<
    DirectoryServerView,
    DirectoryValidationError,
> {
    if server.server_id@.len() != 32 || server.certificate_sha256@.len() != 32
        || server.content_revision_sha256@.len() != 32 {
        Err(DirectoryValidationError::InternalContract)
    } else if server.server_id@ != server.certificate_sha256@ {
        Err(DirectoryValidationError::InvalidIdentity)
    } else if status_of(server.status) is None {
        Err(DirectoryValidationError::InvalidStatus)
    } else {
        let endpoint = match server.endpoint {
            None => Ok(None),
            Some(endpoint) => match spec_convert_endpoint(endpoint) {
                Ok(converted) => Ok(Some(converted)),
                Err(error) => Err(error),
            },
        };
        match endpoint {
            Err(error) => Err(error),
            Ok(endpoint) => Ok(
                DirectoryServerView {
                    server_id: server.server_id@,
                    certificate_sha256: server.certificate_sha256@,
                    name: server.name@,
                    description: server.description@,
                    region: option_text(server.region),
                    protocol_minor: server.protocol_minor,
                    content_id: server.content_id@,
                    content_revision_sha256: server.content_revision_sha256@,
                    players_online: server.players_online,
                    players_capacity: server.players_capacity,
                    status: status_of(server.status)->Some_0,
                    password_required: server.password_required,
                    endpoint,
                },
            ),
        }
    }
}

/// The compatible servers of a parsed list, converted, and the number of
/// incompatible ones; a compatible server that cannot be converted rejects
/// the whole list.
pub open spec fn filter_servers(
    servers: Seq<WireServer>,
    compatibility: InstalledCompatibility,
) -> Result<(Seq<DirectoryServerView>, nat), DirectoryValidationError>
    decreases servers.len(),
{
    if servers.len() == 0 {
        Ok((Seq::empty(), 0))
    } else {
        match filter_servers(servers.drop_last(), compatibility) {
            Err(error) => Err(error),
            Ok((kept, incompatible)) => if server_compatible(compatibility, servers.last()) {
                match spec_convert_server(servers.last()) {
                    Ok(server) => Ok((kept.push(server), incompatible)),
                    Err(error) => Err(error),
                }
            } else {
                Ok((kept, incompatible + 1))
            },
        }
    }
}

/// The client snapshot of a parsed directory for the installed compatibility.
pub open spec fn spec_snapshot_from_wire(
    wire: WireDirectory,
    compatibility: InstalledCompatibility,
) -> Result<DirectorySnapshotView, DirectoryValidationError> {
    match filter_servers(wire.servers@, compatibility) {
        Err(error) => Err(error),
        Ok((servers, incompatible)) => Ok(
            DirectorySnapshotView {
                generation: wire.generation,
                generated_at: wire.generated_at,
                expires_at: wire.expires_at,
                servers,
                incompatible_servers: incompatible,
            },
        ),
    }
}

fn fixed_digest(input: &Vec<u8>) -> (digest: Option<[u8; 32]>)
    ensures
        match digest {
            Some(value) => input@.len() == 32 && value@ == input@,
            None => input@.len() != 32,
        },
{
    if input.len() != 32 {
        return None;
    }
    let mut output: [u8; 32] = [0u8; 32];
    let mut i: usize = 0;
    while i < 32
        invariant
            input@.len() == 32,
            0 <= i <= 32,
            forall|j: int| 0 <= j < i ==> #[trigger] output@[j] == input@[j],
        decreases 32 - i,
    {
        output[i] = input[i];
        i = i + 1;
    }
    assert(output@ =~= input@);
    Some(output)
}

fn convert_endpoint(endpoint: WireEndpoint) -> (result: Result<DirectEndpoint, DirectoryValidationError>)
    ensures
        match spec_convert_endpoint(endpoint) {
            Ok(view) => result is Ok && result->Ok_0@ == view,
            Err(error) => result == Err::<DirectEndpoint, DirectoryValidationError>(error),
        },
{
    if endpoint.port == 0 || endpoint.port > 65535 {
        return Err(DirectoryValidationError::InvalidEndpoint);
    }
    Ok(DirectEndpoint { hostname: endpoint.hostname, port: endpoint.port as u16 })
}

fn convert_server(server: WireServer) -> (result: Result<DirectoryServer, DirectoryValidationError>)
    ensures
        match spec_convert_server(server) {
            Ok(view) => result is Ok && result->Ok_0@ == view,
            Err(error) => result == Err::<DirectoryServer, DirectoryValidationError>(error),
        },
{
    let server_id = fixed_digest(&server.server_id);
    let certificate_sha256 = fixed_digest(&server.certificate_sha256);
    let content_revision_sha256 = fixed_digest(&server.content_revision_sha256);
    let (server_id, certificate_sha256, content_revision_sha256) = match (
        server_id,
        certificate_sha256,
        content_revision_sha256,
    ) {
        (Some(a), Some(b), Some(c)) => (a, b, c),
        _ => {
            return Err(DirectoryValidationError::InternalContract);
        },
    };
    if !bytes_equal(&server_id, &certificate_sha256) {
        return Err(DirectoryValidationError::InvalidIdentity);
    }
    let status = if server.status == 1 {
        DirectoryServerStatus::Online
    } else if server.status == 2 {
        DirectoryServerStatus::Full
    } else if server.status == 3 {
        DirectoryServerStatus::Maintenance
    } else {
        return Err(DirectoryValidationError::InvalidStatus);
    };
    let endpoint = match server.endpoint {
        None => None,
        Some(endpoint) => match convert_endpoint(endpoint) {
            Ok(converted) => Some(converted),
            Err(error) => {
                return Err(error);
            },
        },
    };
    Ok(
        DirectoryServer {
            server_id,
            certificate_sha256,
            name: server.name,
            description: server.description,
            region: server.region,
            protocol_minor: server.protocol_minor,
            content_id: server.content_id,
            content_revision_sha256,
            players_online: server.players_online,
            players_capacity: server.players_capacity,
            status,
            password_required: server.password_required,
            endpoint,
        },
    )
}

impl InstalledCompatibility {
    fn matches(&self, server: &WireServer) -> (compatible: bool)
        ensures
            compatible == server_compatible(*self, *server),
    {
        match self {
            InstalledCompatibility::Unavailable => false,
            InstalledCompatibility::Exact { protocol_minor, content_id, content_revision_sha256 } => {
                proof {
                    vstd::utf8::encode_utf8_decode_utf8(server.content_id@);
                    vstd::utf8::encode_utf8_decode_utf8(content_id@);
                }
                server.protocol_major == PROTOCOL_MAJOR && server.protocol_minor == *protocol_minor
                    && bytes_equal(server.content_id.as_str().as_bytes(), content_id.as_str().as_bytes())
                    && bytes_equal(server.content_revision_sha256.as_slice(), content_revision_sha256.as_slice())
            },
        }
    }
}

/// Compares two byte strings.
pub fn bytes_equal(a: &[u8], b: &[u8]) -> (equal: bool)
    ensures
        equal == (a@ == b@),
{
    if a.len() != b.len() {
        return false;
    }
    let mut i: usize = 0;
    while i < a.len()
        invariant
            a@.len() == b@.len(),
            0 <= i <= a@.len(),
            forall|j: int| 0 <= j < i ==> a@[j] == b@[j],
        decreases a@.len() - i,
    {
        if a[i] != b[i] {
            return false;
        }
        i = i + 1;
    }
    assert(a@ =~= b@);
    true
}

/// Converts a parsed directory into the client snapshot, keeping only the
/// servers compatible with the installed content, in their listed order.
pub fn snapshot_from_wire(wire: WireDirectory, compatibility: &InstalledCompatibility) -> (result:
    Result<DirectorySnapshot, DirectoryValidationError>)
    ensures
        match spec_snapshot_from_wire(wire, *compatibility) {
            Ok(view) => result is Ok && result->Ok_0@ == view,
            Err(error) => result == Err::<DirectorySnapshot, DirectoryValidationError>(error),
        },
{
    let ghost all = wire.servers@;
    let mut servers: Vec<DirectoryServer> = Vec::new();
    let mut incompatible_servers: usize = 0;
    let generation = wire.generation;
    let generated_at = wire.generated_at;
    let expires_at = wire.expires_at;
    let mut i: usize = 0;
    assert(all.take(0) =~= Seq::<WireServer>::empty());
    assert(servers@.map_values(|s: DirectoryServer| s@) =~= Seq::<DirectoryServerView>::empty());
    let count = wire.servers.len();
    assert(all.len() <= usize::MAX);
    for server in it: wire.servers.into_iter()
        invariant
            it.seq() == all,
            filter_servers(all.take(it.index()), *compatibility) == Ok::<
                (Seq<DirectoryServerView>, nat),
                DirectoryValidationError,
            >((servers@.map_values(|s: DirectoryServer| s@), incompatible_servers as nat)),
            incompatible_servers <= it.index(),
            it.index() <= all.len(),
            all.len() <= usize::MAX,
    {
        let ghost index = it.index();
        assert(all.take(index + 1).drop_last() =~= all.take(index));
        assert(all.take(index + 1).last() == server);
        if compatibility.matches(&server) {
            match convert_server(server) {
                Ok(converted) => {
                    servers.push(converted);
                    assert(servers@.map_values(|s: DirectoryServer| s@) =~= filter_servers(
                        all.take(index),
                        *compatibility,
                    )->Ok_0.0.push(servers@.last()@));
                },
                Err(error) => {
                    proof {
                        lemma_filter_error_persists(all, index + 1, *compatibility);
                    }
                    return Err(error);
                },
            }
        } else {
            incompatible_servers = incompatible_servers + 1;
        }
    }
    assert(all.take(all.len() as int) =~= all);
    Ok(DirectorySnapshot { generation, generated_at, expires_at, servers, incompatible_servers })
}

/// Once a prefix of the server list is rejected, the whole list is rejected
/// with the same error.
pub proof fn lemma_filter_error_persists(
    servers: Seq<WireServer>,
    k: int,
    compatibility: InstalledCompatibility,
)
    requires
        0 <= k <= servers.len(),
        filter_servers(servers.take(k), compatibility) is Err,
    ensures
        filter_servers(servers, compatibility) == filter_servers(servers.take(k), compatibility),
    decreases servers.len() - k,
{
    if k < servers.len() {
        assert(servers.take(k + 1).drop_last() =~= servers.take(k));
        lemma_filter_error_persists(servers, k + 1, compatibility);
    } else {
        assert(servers.take(k) =~= servers);
    }
}

/// The client snapshot for what the parser returned.
pub open spec fn spec_parse_outcome(
    parsed: Result<WireDirectory, DirectoryValidationError>,
    compatibility: InstalledCompatibility,
) -> Result<DirectorySnapshotView, DirectoryValidationError> {
    match parsed {
        Ok(wire) => spec_snapshot_from_wire(wire, compatibility),
        Err(error) => Err(error),
    }
}

/// The abstract value of a snapshot result.
pub open spec fn snapshot_result_view(result: Result<DirectorySnapshot, DirectoryValidationError>) -> Result<
    DirectorySnapshotView,
    DirectoryValidationError,
> {
    match result {
        Ok(snapshot) => Ok(snapshot@),
        Err(error) => Err(error),
    }
}

/// Parses a directory body with the canonical parser and keeps the servers
/// compatible with the installed content: the parser's error, or the
/// snapshot of what it parsed (see [`spec_snapshot_from_wire`]).
pub fn parse_directory<P: DirectoryParser>(
    parser: &P,
    input: &[u8],
    compatibility: &InstalledCompatibility,
) -> (result: Result<DirectorySnapshot, DirectoryValidationError>)
    ensures
        exists|parsed: Result<WireDirectory, DirectoryValidationError>|
            snapshot_result_view(result) == #[trigger] spec_parse_outcome(parsed, *compatibility),
        P::obeys_parser_spec() ==> snapshot_result_view(result) == spec_parse_outcome(
            parser.parsed(input@),
            *compatibility,
        ),
        P::obeys_parser_spec() && input@.len() > DIRECTORY_BODY_BYTES_LIMIT ==> result == Err::<
            DirectorySnapshot,
            DirectoryValidationError,
        >(DirectoryValidationError::BodyTooLarge),
{
    let parsed = parser.parse_directory_json(input);
    let ghost parsed_value = parsed;
    let result = match parsed {
        Ok(wire) => snapshot_from_wire(wire, compatibility),
        Err(error) => Err(error),
    };
    assert(snapshot_result_view(result) == spec_parse_outcome(parsed_value, *compatibility));
    result
}


/// The validation error a code names, told apart by its length and three
/// of its characters.
pub open spec fn error_of_code(code: Seq<char>) -> Option<DirectoryValidationError> {
    if code.len() == 12 && code[0] == 'i' && code[2] == 'v' && code[8] == 'j' {
        Some(DirectoryValidationError::InvalidJson)
    } else if code.len() == 17 && code[0] == 'n' && code[2] == 'n' && code[8] == 'i' {
        Some(DirectoryValidationError::NonCanonicalJson)
    } else if code.len() == 18 && code[0] == 'u' && code[2] == 's' && code[8] == 't' {
        Some(DirectoryValidationError::UnsupportedSchema)
    } else if code.len() == 14 && code[0] == 'b' && code[2] == 'd' && code[8] == '_' {
        Some(DirectoryValidationError::BodyTooLarge)
    } else if code.len() == 16 && code[0] == 't' && code[2] == 'o' && code[8] == '_' {
        Some(DirectoryValidationError::TooManyServers)
    } else if code.len() == 18 && code[0] == 'i' && code[2] == 'v' && code[8] == 'g' {
        Some(DirectoryValidationError::InvalidGeneration)
    } else if code.len() == 17 && code[0] == 'i' && code[2] == 'v' && code[8] == 'f' {
        Some(DirectoryValidationError::InvalidFreshness)
    } else if code.len() == 16 && code[0] == 'i' && code[2] == 'v' && code[8] == 'i' {
        Some(DirectoryValidationError::InvalidIdentity)
    } else if code.len() == 12 && code[0] == 'i' && code[2] == 'v' && code[8] == 't' {
        Some(DirectoryValidationError::InvalidText)
    } else if code.len() == 14 && code[0] == 'i' && code[2] == 'v' && code[8] == 'r' {
        Some(DirectoryValidationError::InvalidRegion)
    } else if code.len() == 16 && code[0] == 'i' && code[2] == 'v' && code[8] == 'p' {
        Some(DirectoryValidationError::InvalidProtocol)
    } else if code.len() == 15 && code[0] == 'i' && code[2] == 'v' && code[8] == 'c' {
        Some(DirectoryValidationError::InvalidContent)
    } else if code.len() == 15 && code[0] == 'i' && code[2] == 'v' && code[8] == 'p' {
        Some(DirectoryValidationError::InvalidPlayers)
    } else if code.len() == 14 && code[0] == 'i' && code[2] == 'v' && code[8] == 's' {
        Some(DirectoryValidationError::InvalidStatus)
    } else if code.len() == 16 && code[0] == 'i' && code[2] == 'v' && code[8] == 'e' {
        Some(DirectoryValidationError::InvalidEndpoint)
    } else if code.len() == 17 && code[0] == 'u' && code[2] == 'o' && code[8] == 'd' {
        Some(DirectoryValidationError::UnorderedServers)
    } else if code.len() == 17 && code[0] == 'i' && code[2] == 't' && code[8] == '_' {
        Some(DirectoryValidationError::InternalContract)
    } else {
        None
    }
}

/// Each validation error has a code of its own: the code names the error
/// back, so two different errors never share a code.
pub proof fn law_validation_error_codes_distinct(
    first: DirectoryValidationError,
    second: DirectoryValidationError,
)
    ensures
        error_of_code(validation_error_code(first)@) == Some(first),
        first != second ==> validation_error_code(first)@ != validation_error_code(second)@,
{
    assert forall|error: DirectoryValidationError|
        error_of_code(#[trigger] validation_error_code(error)@) == Some(error) by {
        reveal_strlit("invalid_json");
        assert("invalid_json"@.len() == 12 && "invalid_json"@[0] == 'i' && "invalid_json"@[2] == 'v' && "invalid_json"@[8] == 'j');
        reveal_strlit("noncanonical_json");
        assert("noncanonical_json"@.len() == 17 && "noncanonical_json"@[0] == 'n' && "noncanonical_json"@[2] == 'n' && "noncanonical_json"@[8] == 'i');
        reveal_strlit("unsupported_schema");
        assert("unsupported_schema"@.len() == 18 && "unsupported_schema"@[0] == 'u' && "unsupported_schema"@[2] == 's' && "unsupported_schema"@[8] == 't');
        reveal_strlit("body_too_large");
        assert("body_too_large"@.len() == 14 && "body_too_large"@[0] == 'b' && "body_too_large"@[2] == 'd' && "body_too_large"@[8] == '_');
        reveal_strlit("too_many_servers");
        assert("too_many_servers"@.len() == 16 && "too_many_servers"@[0] == 't' && "too_many_servers"@[2] == 'o' && "too_many_servers"@[8] == '_');
        reveal_strlit("invalid_generation");
        assert("invalid_generation"@.len() == 18 && "invalid_generation"@[0] == 'i' && "invalid_generation"@[2] == 'v' && "invalid_generation"@[8] == 'g');
        reveal_strlit("invalid_freshness");
        assert("invalid_freshness"@.len() == 17 && "invalid_freshness"@[0] == 'i' && "invalid_freshness"@[2] == 'v' && "invalid_freshness"@[8] == 'f');
        reveal_strlit("invalid_identity");
        assert("invalid_identity"@.len() == 16 && "invalid_identity"@[0] == 'i' && "invalid_identity"@[2] == 'v' && "invalid_identity"@[8] == 'i');
        reveal_strlit("invalid_text");
        assert("invalid_text"@.len() == 12 && "invalid_text"@[0] == 'i' && "invalid_text"@[2] == 'v' && "invalid_text"@[8] == 't');
        reveal_strlit("invalid_region");
        assert("invalid_region"@.len() == 14 && "invalid_region"@[0] == 'i' && "invalid_region"@[2] == 'v' && "invalid_region"@[8] == 'r');
        reveal_strlit("invalid_protocol");
        assert("invalid_protocol"@.len() == 16 && "invalid_protocol"@[0] == 'i' && "invalid_protocol"@[2] == 'v' && "invalid_protocol"@[8] == 'p');
        reveal_strlit("invalid_content");
        assert("invalid_content"@.len() == 15 && "invalid_content"@[0] == 'i' && "invalid_content"@[2] == 'v' && "invalid_content"@[8] == 'c');
        reveal_strlit("invalid_players");
        assert("invalid_players"@.len() == 15 && "invalid_players"@[0] == 'i' && "invalid_players"@[2] == 'v' && "invalid_players"@[8] == 'p');
        reveal_strlit("invalid_status");
        assert("invalid_status"@.len() == 14 && "invalid_status"@[0] == 'i' && "invalid_status"@[2] == 'v' && "invalid_status"@[8] == 's');
        reveal_strlit("invalid_endpoint");
        assert("invalid_endpoint"@.len() == 16 && "invalid_endpoint"@[0] == 'i' && "invalid_endpoint"@[2] == 'v' && "invalid_endpoint"@[8] == 'e');
        reveal_strlit("unordered_servers");
        assert("unordered_servers"@.len() == 17 && "unordered_servers"@[0] == 'u' && "unordered_servers"@[2] == 'o' && "unordered_servers"@[8] == 'd');
        reveal_strlit("internal_contract");
        assert("internal_contract"@.len() == 17 && "internal_contract"@[0] == 'i' && "internal_contract"@[2] == 't' && "internal_contract"@[8] == '_');
    }
    assert(error_of_code(validation_error_code(second)@) == Some(second));
}

/// A lowercase ASCII letter or an underscore.
pub open spec fn snake_case_char(c: char) -> bool {
    ('a' <= c && c <= 'z') || c == '_'
}

/// Every character from `from` on is a lowercase ASCII letter or an
/// underscore.
pub open spec fn snake_case_from(text: Seq<char>, from: int) -> bool
    decreases text.len() - from,
{
    if from < 0 || from >= text.len() {
        true
    } else {
        snake_case_char(text[from]) && snake_case_from(text, from + 1)
    }
}

/// A nonempty lowercase snake_case ASCII word.
pub open spec fn snake_case_ascii(text: Seq<char>) -> bool {
    text.len() > 0 && snake_case_from(text, 0)
}

/// Every validation error code is a nonempty lowercase snake_case ASCII word.
pub proof fn law_validation_error_codes_are_snake_case(error: DirectoryValidationError)
    ensures
        snake_case_ascii(validation_error_code(error)@),
{
    reveal_with_fuel(snake_case_from, 19);
    match error {
        DirectoryValidationError::InvalidJson => {
            reveal_strlit("invalid_json");
        },
        DirectoryValidationError::NonCanonicalJson => {
            reveal_strlit("noncanonical_json");
        },
        DirectoryValidationError::UnsupportedSchema => {
            reveal_strlit("unsupported_schema");
        },
        DirectoryValidationError::BodyTooLarge => {
            reveal_strlit("body_too_large");
        },
        DirectoryValidationError::TooManyServers => {
            reveal_strlit("too_many_servers");
        },
        DirectoryValidationError::InvalidGeneration => {
            reveal_strlit("invalid_generation");
        },
        DirectoryValidationError::InvalidFreshness => {
            reveal_strlit("invalid_freshness");
        },
        DirectoryValidationError::InvalidIdentity => {
            reveal_strlit("invalid_identity");
        },
        DirectoryValidationError::InvalidText => {
            reveal_strlit("invalid_text");
        },
        DirectoryValidationError::InvalidRegion => {
            reveal_strlit("invalid_region");
        },
        DirectoryValidationError::InvalidProtocol => {
            reveal_strlit("invalid_protocol");
        },
        DirectoryValidationError::InvalidContent => {
            reveal_strlit("invalid_content");
        },
        DirectoryValidationError::InvalidPlayers => {
            reveal_strlit("invalid_players");
        },
        DirectoryValidationError::InvalidStatus => {
            reveal_strlit("invalid_status");
        },
        DirectoryValidationError::InvalidEndpoint => {
            reveal_strlit("invalid_endpoint");
        },
        DirectoryValidationError::UnorderedServers => {
            reveal_strlit("unordered_servers");
        },
        DirectoryValidationError::InternalContract => {
            reveal_strlit("internal_contract");
        },
    }
}

/// How many listed servers run protocol major 1 with exactly the given minor
/// version, content identifier and content revision.
pub open spec fn count_exactly_compatible(
    servers: Seq<WireServer>,
    protocol_minor: u32,
    content_id: Seq<char>,
    content_revision_sha256: Seq<u8>,
) -> nat
    decreases servers.len(),
{
    if servers.len() == 0 {
        0
    } else {
        count_exactly_compatible(
            servers.drop_last(),
            protocol_minor,
            content_id,
            content_revision_sha256,
        ) + if servers.last().protocol_major == 1 && servers.last().protocol_minor == protocol_minor
            && servers.last().content_id@ == content_id && servers.last().content_revision_sha256@
            == content_revision_sha256 {
            1nat
        } else {
            0nat
        }
    }
}

/// The servers kept from a list, and how many were set aside, when the list
/// is accepted: every listed server is either kept or counted; nothing is
/// kept without installed content; with installed content exactly the
/// servers running its protocol minor, content identifier and content
/// revision under major 1 are kept, and each carries those values.
proof fn lemma_filter_keeps_exact_matches(servers: Seq<WireServer>, compatibility: InstalledCompatibility)
    ensures
        filter_servers(servers, compatibility) is Ok ==> {
            let (kept, incompatible) = filter_servers(servers, compatibility)->Ok_0;
            &&& kept.len() + incompatible == servers.len()
            &&& match compatibility {
                InstalledCompatibility::Unavailable => kept.len() == 0,
                InstalledCompatibility::Exact {
                    protocol_minor,
                    content_id,
                    content_revision_sha256,
                } => {
                    &&& kept.len() == count_exactly_compatible(
                        servers,
                        protocol_minor,
                        content_id@,
                        content_revision_sha256@,
                    )
                    &&& forall|i: int|
                        0 <= i < kept.len() ==> #[trigger] kept[i].protocol_minor == protocol_minor
                            && kept[i].content_id == content_id@
                            && kept[i].content_revision_sha256 == content_revision_sha256@
                },
            }
        },
    decreases servers.len(),
{
    if servers.len() > 0 {
        lemma_filter_keeps_exact_matches(servers.drop_last(), compatibility);
    }
}

/// Only servers compatible with the installed content are shown: every
/// server of the directory is either kept or counted as incompatible;
/// without installed content none is kept; with installed content exactly
/// the servers running protocol major 1 with the installed protocol minor,
/// content identifier and content revision are kept, and each kept server
/// carries those values.
pub proof fn law_kept_servers_match_installed_content(
    wire: WireDirectory,
    compatibility: InstalledCompatibility,
)
    ensures
        spec_snapshot_from_wire(wire, compatibility) is Ok ==> {
            let snapshot = spec_snapshot_from_wire(wire, compatibility)->Ok_0;
            &&& snapshot.servers.len() + snapshot.incompatible_servers == wire.servers@.len()
            &&& match compatibility {
                InstalledCompatibility::Unavailable => snapshot.servers.len() == 0,
                InstalledCompatibility::Exact {
                    protocol_minor,
                    content_id,
                    content_revision_sha256,
                } => {
                    &&& snapshot.servers.len() == count_exactly_compatible(
                        wire.servers@,
                        protocol_minor,
                        content_id@,
                        content_revision_sha256@,
                    )
                    &&& forall|i: int|
                        0 <= i < snapshot.servers.len()
                            ==> #[trigger] snapshot.servers[i].protocol_minor == protocol_minor
                            && snapshot.servers[i].content_id == content_id@
                            && snapshot.servers[i].content_revision_sha256
                            == content_revision_sha256@
                },
            }
        },
{
    lemma_filter_keeps_exact_matches(wire.servers@, compatibility);
    if spec_snapshot_from_wire(wire, compatibility) is Ok {
        let (kept, incompatible) = filter_servers(wire.servers@, compatibility)->Ok_0;
        let snapshot = spec_snapshot_from_wire(wire, compatibility)->Ok_0;
        assert(snapshot.servers == kept);
        assert(snapshot.incompatible_servers == incompatible);
        match compatibility {
            InstalledCompatibility::Exact { protocol_minor, content_id, content_revision_sha256 } => {
                assert forall|i: int| 0 <= i < snapshot.servers.len() implies #[trigger] snapshot.servers[i].protocol_minor
                    == protocol_minor && snapshot.servers[i].content_id == content_id@
                    && snapshot.servers[i].content_revision_sha256 == content_revision_sha256@ by {
                    assert(kept[i].protocol_minor == protocol_minor);
                }
            },
            InstalledCompatibility::Unavailable => {},
        }
    }
}

} // verus!
