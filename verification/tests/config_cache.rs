use atrinik_client::config_cache::{
    resource_verdict, verify_resource, CacheError, MemoryResourceProvider, ResourceClaim, ResourceProvider,
    StorageClass,
};
use sha2::{Digest, Sha256};
use std::collections::BTreeSet;

fn claim_for(stable_id: &str, bytes: &[u8], media_type: &str) -> ResourceClaim {
    ResourceClaim {
        stable_id: stable_id.into(),
        sha256: Sha256::digest(bytes).into(),
        compressed_bytes: bytes.len() as u64,
        expanded_bytes: bytes.len() as u64,
        media_type: media_type.into(),
    }
}

#[test]
fn storage_classes_never_alias() {
    let classes = [
        StorageClass::Credentials,
        StorageClass::TrustIdentity,
        StorageClass::Settings,
        StorageClass::Layout,
        StorageClass::ResourceCache,
        StorageClass::Logs,
        StorageClass::Screenshots,
        StorageClass::CrashData,
        StorageClass::DirectoryCache,
    ];
    let names: BTreeSet<_> = classes.into_iter().map(StorageClass::directory).collect();
    assert_eq!(names.len(), classes.len());
    assert_eq!(StorageClass::DirectoryCache.directory(), "directory");
    assert_eq!(StorageClass::ResourceCache.directory(), "resources");
}

#[test]
fn authenticated_data_is_accepted_but_executables_fail() {
    let bytes = b"fixture";
    let claim = ResourceClaim {
        stable_id: "fixture:image".into(),
        sha256: Sha256::digest(bytes).into(),
        compressed_bytes: bytes.len() as u64,
        expanded_bytes: bytes.len() as u64,
        media_type: "image/png".into(),
    };
    assert_eq!(verify_resource(&claim, bytes), Ok(()));
    let mut resources = MemoryResourceProvider::default();
    resources.insert(&claim, bytes).expect("insert");
    assert_eq!(resources.load(&claim).expect("load").as_slice(), bytes);
    let executable = b"MZfixture";
    let claim = ResourceClaim {
        sha256: Sha256::digest(executable).into(),
        compressed_bytes: executable.len() as u64,
        expanded_bytes: executable.len() as u64,
        ..claim
    };
    assert_eq!(
        verify_resource(&claim, executable),
        Err(CacheError::ExecutableContent)
    );
}

#[test]
fn each_refusal_has_its_own_error() {
    let bytes = b"ogg data";
    assert_eq!(
        verify_resource(&claim_for("", bytes, "audio/ogg"), bytes),
        Err(CacheError::InvalidIdentity)
    );
    assert_eq!(
        verify_resource(&claim_for("bad id", bytes, "audio/ogg"), bytes),
        Err(CacheError::InvalidIdentity)
    );
    assert_eq!(
        verify_resource(&claim_for(&"a".repeat(161), bytes, "audio/ogg"), bytes),
        Err(CacheError::InvalidIdentity)
    );
    assert_eq!(
        verify_resource(&claim_for("sound/1", bytes, "text/html"), bytes),
        Err(CacheError::UnsupportedMedia)
    );
    let mut short = claim_for("sound/1", bytes, "audio/ogg");
    short.compressed_bytes += 1;
    short.expanded_bytes += 1;
    assert_eq!(verify_resource(&short, bytes), Err(CacheError::SizeLimit));
    let mut shrinking = claim_for("sound/1", bytes, "audio/ogg");
    shrinking.expanded_bytes = 1;
    assert_eq!(verify_resource(&shrinking, bytes), Err(CacheError::SizeLimit));
    for executable in [
        b"\x7fELFbinary".as_slice(),
        b"#!/bin/sh".as_slice(),
        b"\0asmcode".as_slice(),
    ] {
        assert_eq!(
            verify_resource(
                &claim_for("content/x", executable, "application/vnd.atrinik.content"),
                executable
            ),
            Err(CacheError::ExecutableContent)
        );
    }
    let mut tampered = claim_for("sound/1", bytes, "audio/ogg");
    tampered.sha256[0] ^= 1;
    assert_eq!(
        verify_resource(&tampered, bytes),
        Err(CacheError::DigestMismatch)
    );
    assert_eq!(
        CacheError::Missing.message(),
        "authenticated resource is not available"
    );
}

#[test]
fn provider_replaces_by_identifier_and_loads_only_the_claimed_digest() {
    let first = b"first image";
    let second = b"second image!";
    let mut resources = MemoryResourceProvider::default();
    let first_claim = claim_for("image/1", first, "image/png");
    let second_claim = claim_for("image/1", second, "image/png");
    resources.insert(&first_claim, first).expect("first");
    resources.insert(&second_claim, second).expect("replacement");
    assert_eq!(
        resources.load(&second_claim).expect("current").as_slice(),
        second
    );
    assert_eq!(resources.load(&first_claim), Err(CacheError::Missing));
    assert_eq!(
        resources.load(&claim_for("image/2", first, "image/png")),
        Err(CacheError::Missing)
    );
    assert_eq!(
        resources.insert(&first_claim, b"not the claimed bytes"),
        Err(CacheError::SizeLimit)
    );
    assert_eq!(
        resources.load(&second_claim).expect("unchanged").as_slice(),
        second
    );
}

#[test]
fn the_verdict_with_a_given_digest_compares_it_with_the_claim() {
    let bytes = b"fixture";
    let claim = claim_for("fixture:image", bytes, "image/png");
    let digest: [u8; 32] = Sha256::digest(bytes).into();
    assert_eq!(resource_verdict(&claim, bytes, &digest), Ok(()));
    assert_eq!(
        resource_verdict(&claim, bytes, &[0u8; 32]),
        Err(CacheError::DigestMismatch)
    );
    let unsupported = claim_for("fixture:image", bytes, "text/plain");
    assert_eq!(
        resource_verdict(&unsupported, bytes, &digest),
        Err(CacheError::UnsupportedMedia)
    );
}

#[test]
fn a_stored_identifier_is_replaced_not_duplicated() {
    let mut resources = MemoryResourceProvider::default();
    let first = claim_for("fixture:image", b"one", "image/png");
    let second = claim_for("fixture:image", b"second", "image/png");
    resources.insert(&first, b"one").expect("first");
    resources.insert(&second, b"second").expect("second");
    assert_eq!(resources.load(&first), Err(CacheError::Missing));
    assert_eq!(resources.load(&second).expect("load").as_slice(), b"second");
}
