use atrinik_client::directory_model::{
    parse_canonical_u64, parse_directory, snapshot_from_wire, DirectEndpoint, DirectoryParser,
    DirectoryServerStatus, DirectoryValidationError, InstalledCompatibility, WireDirectory,
    WireEndpoint, WireServer,
};

const CONTENT_REVISION: [u8; 32] = [0xaa; 32];

fn server(id: u8, content_id: &str, endpoint: Option<WireEndpoint>) -> WireServer {
    WireServer {
        server_id: vec![id; 32],
        certificate_sha256: vec![id; 32],
        name: "Atrinik \"Alpha\"".into(),
        description: "Cooperative Ω".into(),
        region: Some("eu-west".into()),
        protocol_major: 1,
        protocol_minor: 0,
        content_id: content_id.into(),
        content_revision_sha256: CONTENT_REVISION.to_vec(),
        players_online: 3,
        players_capacity: 64,
        status: 1,
        password_required: false,
        endpoint,
    }
}

fn listed() -> WireDirectory {
    WireDirectory {
        generation: 42,
        generated_at: 1_786_219_200,
        expires_at: 1_786_233_600,
        servers: vec![
            server(
                0x11,
                "atrinik-main",
                Some(WireEndpoint {
                    hostname: "xn--bcher-kva.example.org".into(),
                    port: 13_327,
                }),
            ),
            server(0x22, "other-content", None),
        ],
    }
}

struct ListedParser;

impl DirectoryParser for ListedParser {
    fn parse_directory_json(&self, input: &[u8]) -> Result<WireDirectory, DirectoryValidationError> {
        if input == b"listed" {
            Ok(listed())
        } else {
            Err(DirectoryValidationError::InvalidJson)
        }
    }
}

#[test]
fn compatibility_input_is_bounded_and_canonical() {
    assert_eq!(
        InstalledCompatibility::exact(65_536, "atrinik-main", CONTENT_REVISION),
        Err(DirectoryValidationError::InvalidProtocol)
    );
    for invalid in ["", "-bad", "bad-", "Bad", "a/b", &"a".repeat(65)] {
        assert_eq!(
            InstalledCompatibility::exact(0, invalid, CONTENT_REVISION),
            Err(DirectoryValidationError::InvalidContent)
        );
    }
    assert_eq!(
        InstalledCompatibility::exact_hex("0", "atrinik-main", &"aa".repeat(32)),
        InstalledCompatibility::exact(0, "atrinik-main", CONTENT_REVISION)
    );
    for (minor, content, digest) in [
        ("00", "atrinik-main", "aa".repeat(32)),
        ("x", "atrinik-main", "aa".repeat(32)),
        ("0", "Atrinik", "aa".repeat(32)),
        ("0", "atrinik-main", "AA".repeat(32)),
        ("0", "atrinik-main", "a".repeat(63)),
        ("0", "atrinik-main", "é".repeat(32)),
    ] {
        assert!(InstalledCompatibility::exact_hex(minor, content, &digest).is_err());
    }
}

#[test]
fn parsed_directory_maps_to_client_owned_types_and_filters_before_display() {
    let compatibility =
        InstalledCompatibility::exact(0, "atrinik-main", CONTENT_REVISION).expect("compatibility");
    let snapshot = parse_directory(&ListedParser, b"listed", &compatibility).expect("listed");
    assert_eq!(snapshot.generation, 42);
    assert_eq!(snapshot.generated_at, 1_786_219_200);
    assert_eq!(snapshot.expires_at, 1_786_233_600);
    assert_eq!(snapshot.incompatible_servers, 1);
    assert_eq!(snapshot.servers.len(), 1);
    let server = &snapshot.servers[0];
    assert_eq!(server.server_id, [0x11; 32]);
    assert_eq!(server.certificate_sha256, server.server_id);
    assert_eq!(server.name, "Atrinik \"Alpha\"");
    assert_eq!(server.description, "Cooperative Ω");
    assert_eq!(server.region.as_deref(), Some("eu-west"));
    assert_eq!(server.status, DirectoryServerStatus::Online);
    assert_eq!(
        server.endpoint,
        Some(DirectEndpoint {
            hostname: "xn--bcher-kva.example.org".to_owned(),
            port: 13_327,
        })
    );
    assert_eq!(
        parse_directory(&ListedParser, b"garbage", &compatibility),
        Err(DirectoryValidationError::InvalidJson)
    );
}

#[test]
fn unavailable_compatibility_hides_every_server() {
    let snapshot = snapshot_from_wire(listed(), &InstalledCompatibility::Unavailable)
        .expect("valid directory");
    assert!(snapshot.servers.is_empty());
    assert_eq!(snapshot.incompatible_servers, 2);
}

#[test]
fn unrepresentable_compatible_servers_reject_the_whole_directory() {
    let compatibility =
        InstalledCompatibility::exact(0, "atrinik-main", CONTENT_REVISION).expect("compatibility");
    let mut identity = listed();
    identity.servers[0].certificate_sha256 = vec![0x12; 32];
    assert_eq!(
        snapshot_from_wire(identity, &compatibility),
        Err(DirectoryValidationError::InvalidIdentity)
    );
    let mut status = listed();
    status.servers[0].status = 4;
    assert_eq!(
        snapshot_from_wire(status, &compatibility),
        Err(DirectoryValidationError::InvalidStatus)
    );
    let mut port = listed();
    port.servers[0].endpoint = Some(WireEndpoint {
        hostname: "example.org".into(),
        port: 70_000,
    });
    assert_eq!(
        snapshot_from_wire(port, &compatibility),
        Err(DirectoryValidationError::InvalidEndpoint)
    );
    let mut short = listed();
    short.servers[0].server_id = vec![0x11; 31];
    assert_eq!(
        snapshot_from_wire(short, &compatibility),
        Err(DirectoryValidationError::InternalContract)
    );
}

#[test]
fn canonical_numbers_parse_exactly() {
    assert_eq!(parse_canonical_u64(b"0"), Some(0));
    assert_eq!(parse_canonical_u64(b"18446744073709551615"), Some(u64::MAX));
    assert_eq!(parse_canonical_u64(b"18446744073709551616"), None);
    assert_eq!(parse_canonical_u64(b"007"), None);
    assert_eq!(parse_canonical_u64(b""), None);
    assert_eq!(parse_canonical_u64(b"1a"), None);
    assert_eq!(
        DirectoryValidationError::UnorderedServers.code(),
        "unordered_servers"
    );
}

#[test]
fn validation_codes_are_lowercase_snake_case() {
    let errors = [
        DirectoryValidationError::InvalidJson,
        DirectoryValidationError::NonCanonicalJson,
        DirectoryValidationError::UnsupportedSchema,
        DirectoryValidationError::BodyTooLarge,
        DirectoryValidationError::TooManyServers,
        DirectoryValidationError::InvalidGeneration,
        DirectoryValidationError::InvalidFreshness,
        DirectoryValidationError::InvalidIdentity,
        DirectoryValidationError::InvalidText,
        DirectoryValidationError::InvalidRegion,
        DirectoryValidationError::InvalidProtocol,
        DirectoryValidationError::InvalidContent,
        DirectoryValidationError::InvalidPlayers,
        DirectoryValidationError::InvalidStatus,
        DirectoryValidationError::InvalidEndpoint,
        DirectoryValidationError::UnorderedServers,
        DirectoryValidationError::InternalContract,
    ];
    for error in errors {
        let code = error.code();
        assert!(!code.is_empty());
        assert!(code.bytes().all(|b| b.is_ascii_lowercase() || b == b'_'));
    }
    assert_eq!(DirectoryValidationError::UnorderedServers.code(), "unordered_servers");
    assert_eq!(DirectoryValidationError::BodyTooLarge.code(), "body_too_large");
}
