//! Independent storage classes, and the authenticated resource boundary:
//! only allowlisted, bounded, non-executable bytes whose digest matches
//! their claim are ever accepted.
use crate::digest::{sha256, sha256_digest};
use crate::directory_model::bytes_equal;
use vstd::prelude::*;
use vstd::string::StringSliceAdditionalSpecFns;

verus! {

/// A kind of client data kept apart from every other kind.
#[derive(Clone, Copy, Debug, PartialEq, Eq, Structural)]
pub enum StorageClass {
    Credentials,
    TrustIdentity,
    Settings,
    Layout,
    ResourceCache,
    Logs,
    Screenshots,
    CrashData,
    DirectoryCache,
}

/// The directory each storage class lives in.
pub open spec fn storage_directory(class: StorageClass) -> &'static str {
    match class {
        StorageClass::Credentials => "credentials",
        StorageClass::TrustIdentity => "trust",
        StorageClass::Settings => "settings",
        StorageClass::Layout => "layout",
        StorageClass::ResourceCache => "resources",
        StorageClass::Logs => "logs",
        StorageClass::Screenshots => "screenshots",
        StorageClass::CrashData => "crashes",
        StorageClass::DirectoryCache => "directory",
    }
}

impl StorageClass {
    /// The directory this class lives in.
    pub fn directory(self) -> (name: &'static str)
        ensures
            name == storage_directory(self),
    {
        match self {
            StorageClass::Credentials => "credentials",
            StorageClass::TrustIdentity => "trust",
            StorageClass::Settings => "settings",
            StorageClass::Layout => "layout",
            StorageClass::ResourceCache => "resources",
            StorageClass::Logs => "logs",
            StorageClass::Screenshots => "screenshots",
            StorageClass::CrashData => "crashes",
            StorageClass::DirectoryCache => "directory",
        }
    }
}

/// Storage classes never alias: distinct classes live in distinct
/// directories.
pub proof fn law_storage_classes_never_alias(a: StorageClass, b: StorageClass)
    requires
        a != b,
    ensures
        storage_directory(a)@ != storage_directory(b)@,
{
    reveal_strlit("credentials");
    reveal_strlit("trust");
    reveal_strlit("settings");
    reveal_strlit("layout");
    reveal_strlit("resources");
    reveal_strlit("logs");
    reveal_strlit("screenshots");
    reveal_strlit("crashes");
    reveal_strlit("directory");
    if storage_directory(a)@ == storage_directory(b)@ {
        assert(storage_directory(a)@.len() == storage_directory(b)@.len());
        assert(storage_directory(a)@[0] == storage_directory(b)@[0]);
        assert(storage_directory(a)@[1] == storage_directory(b)@[1]);
    }
}

/// An authenticated claim about a resource.
#[derive(Clone, Debug, PartialEq, Eq)]
pub struct ResourceClaim {
    pub stable_id: String,
    pub sha256: [u8; 32],
    pub compressed_bytes: u64,
    pub expanded_bytes: u64,
    pub media_type: String,
}

/// Why a resource was refused.
#[derive(Clone, Copy, Debug, PartialEq, Eq, Structural)]
pub enum CacheError {
    InvalidIdentity,
    UnsupportedMedia,
    SizeLimit,
    DigestMismatch,
    ExecutableContent,
    Missing,
}

impl CacheError {
    /// Human-readable description of the error.
    pub fn message(&self) -> (text: &'static str)
        ensures
            text == cache_error_message(*self),
    {
        match self {
            CacheError::InvalidIdentity => "resource identity is invalid",
            CacheError::UnsupportedMedia => "resource media type is not allowlisted",
            CacheError::SizeLimit => "resource exceeds transfer or expansion bounds",
            CacheError::DigestMismatch => "resource digest does not match authenticated claim",
            CacheError::ExecutableContent => "server-selected executable content is forbidden",
            CacheError::Missing => "authenticated resource is not available",
        }
    }
}

/// The fixed human-readable description of each resource error.
pub open spec fn cache_error_message(error: CacheError) -> &'static str {
    match error {
        CacheError::InvalidIdentity => "resource identity is invalid",
        CacheError::UnsupportedMedia => "resource media type is not allowlisted",
        CacheError::SizeLimit => "resource exceeds transfer or expansion bounds",
        CacheError::DigestMismatch => "resource digest does not match authenticated claim",
        CacheError::ExecutableContent => "server-selected executable content is forbidden",
        CacheError::Missing => "authenticated resource is not available",
    }
}

/// Provides authenticated resources.
pub trait ResourceProvider {
    fn load(&self, claim: &ResourceClaim) -> Result<Vec<u8>, CacheError>;
}

/// Longest resource identifier, in bytes.
pub const MAXIMUM_STABLE_ID_BYTES: usize = 160;
/// Largest transferred resource, in bytes.
pub const MAXIMUM_COMPRESSED_BYTES: u64 = 67108864;
/// Largest expanded resource, and largest total held in memory, in bytes.
pub const MAXIMUM_EXPANDED_BYTES: u64 = 268435456;

/// A byte allowed in a resource identifier: ASCII letters and digits and
/// `.`, `_`, `:`, `-`, `/`.
pub open spec fn identity_byte(b: u8) -> bool {
    (48 <= b <= 57) || (65 <= b <= 90) || (97 <= b <= 122) || b == 46u8 || b == 95u8 || b == 58u8
        || b == 45u8 || b == 47u8
}

/// A resource identifier: 1 to 160 allowed bytes.
pub open spec fn valid_stable_id(id: Seq<u8>) -> bool {
    1 <= id.len() <= MAXIMUM_STABLE_ID_BYTES && forall|i: int|
        0 <= i < id.len() ==> identity_byte(#[trigger] id[i])
}

/// The allowlisted media types.
pub open spec fn allowed_media(media_type: Seq<char>) -> bool {
    media_type == "image/png"@ || media_type == "audio/ogg"@ || media_type
        == "application/vnd.atrinik.content"@
}

/// Whether `bytes` starts with `prefix`.
pub open spec fn starts_with(bytes: Seq<u8>, prefix: Seq<u8>) -> bool {
    prefix.len() <= bytes.len() && bytes.take(prefix.len() as int) == prefix
}

/// Content that starts like an executable: ELF, PE, a script or WebAssembly.
pub open spec fn executable_content(bytes: Seq<u8>) -> bool {
    starts_with(bytes, seq![127u8, 69u8, 76u8, 70u8]) || starts_with(bytes, seq![77u8, 90u8])
        || starts_with(bytes, seq![35u8, 33u8]) || starts_with(bytes, seq![0u8, 97u8, 115u8, 109u8])
}

/// Whether bytes satisfy a claim, or the first reason they do not: the
/// identifier, the media type, the size bounds, executable content, and
/// finally the digest.
pub open spec fn spec_verify_resource(claim: ResourceClaim, bytes: Seq<u8>) -> Result<(), CacheError> {
    spec_resource_verdict(claim, bytes, sha256(bytes))
}

/// The verdict on bytes against their claim, given the digest of the bytes.
pub open spec fn spec_resource_verdict(claim: ResourceClaim, bytes: Seq<u8>, digest: Seq<u8>) -> Result<
    (),
    CacheError,
> {
    if !valid_stable_id(vstd::utf8::encode_utf8(claim.stable_id@)) {
        Err(CacheError::InvalidIdentity)
    } else if !allowed_media(claim.media_type@) {
        Err(CacheError::UnsupportedMedia)
    } else if claim.compressed_bytes > MAXIMUM_COMPRESSED_BYTES || claim.expanded_bytes
        > MAXIMUM_EXPANDED_BYTES || claim.expanded_bytes < claim.compressed_bytes || bytes.len()
        != claim.compressed_bytes {
        Err(CacheError::SizeLimit)
    } else if executable_content(bytes) {
        Err(CacheError::ExecutableContent)
    } else if digest != claim.sha256@ {
        Err(CacheError::DigestMismatch)
    } else {
        Ok(())
    }
}

/// Whether an identifier is valid.
fn stable_id_ok(id: &[u8]) -> (ok: bool)
    ensures
        ok == valid_stable_id(id@),
{
    if id.len() < 1 || id.len() > MAXIMUM_STABLE_ID_BYTES {
        return false;
    }
    let mut i: usize = 0;
    while i < id.len()
        invariant
            0 <= i <= id@.len(),
            forall|j: int| 0 <= j < i ==> identity_byte(#[trigger] id@[j]),
        decreases id@.len() - i,
    {
        let b = id[i];
        if !((48 <= b && b <= 57) || (65 <= b && b <= 90) || (97 <= b && b <= 122) || b == 46 || b
            == 95 || b == 58 || b == 45 || b == 47) {
            assert(!identity_byte(id@[i as int]));
            return false;
        }
        i = i + 1;
    }
    true
}

/// Whether `bytes` starts with `prefix`.
fn has_prefix(bytes: &[u8], prefix: &[u8]) -> (found: bool)
    ensures
        found == starts_with(bytes@, prefix@),
{
    if prefix.len() > bytes.len() {
        return false;
    }
    let head = &bytes[0..prefix.len()];
    let same = bytes_equal(head, prefix);
    assert(head@ =~= bytes@.take(prefix@.len() as int));
    same
}

/// Whether content starts like an executable.
fn looks_executable(bytes: &[u8]) -> (executable: bool)
    ensures
        executable == executable_content(bytes@),
{
    let elf: [u8; 4] = [127u8, 69u8, 76u8, 70u8];
    let pe: [u8; 2] = [77u8, 90u8];
    let script: [u8; 2] = [35u8, 33u8];
    let wasm: [u8; 4] = [0u8, 97u8, 115u8, 109u8];
    assert(elf@ =~= seq![127u8, 69u8, 76u8, 70u8]);
    assert(pe@ =~= seq![77u8, 90u8]);
    assert(script@ =~= seq![35u8, 33u8]);
    assert(wasm@ =~= seq![0u8, 97u8, 115u8, 109u8]);
    has_prefix(bytes, &elf) || has_prefix(bytes, &pe) || has_prefix(bytes, &script) || has_prefix(
        bytes,
        &wasm,
    )
}

/// Checks bytes against their authenticated claim.
pub fn verify_resource(claim: &ResourceClaim, bytes: &[u8]) -> (result: Result<(), CacheError>)
    ensures
        result == spec_verify_resource(*claim, bytes@),
{
    let digest = sha256_digest(bytes);
    resource_verdict(claim, bytes, &digest)
}

/// Checks bytes against their authenticated claim, given the digest of the
/// bytes (see [`spec_resource_verdict`]).
pub fn resource_verdict(claim: &ResourceClaim, bytes: &[u8], digest: &[u8; 32]) -> (result: Result<
    (),
    CacheError,
>)
    ensures
        result == spec_resource_verdict(*claim, bytes@, digest@),
{
    if !stable_id_ok(claim.stable_id.as_str().as_bytes()) {
        return Err(CacheError::InvalidIdentity);
    }
    let media = claim.media_type.as_str();
    if !(crate::transport::same_text(media, "image/png") || crate::transport::same_text(
        media,
        "audio/ogg",
    ) || crate::transport::same_text(media, "application/vnd.atrinik.content")) {
        return Err(CacheError::UnsupportedMedia);
    }
    if claim.compressed_bytes > MAXIMUM_COMPRESSED_BYTES || claim.expanded_bytes
        > MAXIMUM_EXPANDED_BYTES || claim.expanded_bytes < claim.compressed_bytes || bytes.len()
        as u64 != claim.compressed_bytes {
        return Err(CacheError::SizeLimit);
    }
    if looks_executable(bytes) {
        return Err(CacheError::ExecutableContent);
    }
    if !bytes_equal(digest, &claim.sha256) {
        return Err(CacheError::DigestMismatch);
    }
    Ok(())
}

/// A resource held in memory: its identifier, the digest it was claimed
/// with, and its bytes.
pub struct StoredResource {
    pub stable_id: String,
    pub sha256: [u8; 32],
    pub bytes: Vec<u8>,
}

/// Abstract value of a [`StoredResource`].
pub struct StoredView {
    pub stable_id: Seq<char>,
    pub sha256: Seq<u8>,
    pub bytes: Seq<u8>,
}

/// The abstract values of stored resources.
pub open spec fn stored_views(entries: Seq<StoredResource>) -> Seq<StoredView> {
    entries.map_values(
        |entry: StoredResource|
            StoredView { stable_id: entry.stable_id@, sha256: entry.sha256@, bytes: entry.bytes@ },
    )
}

/// The total size of stored resources.
pub open spec fn total_size(entries: Seq<StoredView>) -> nat
    decreases entries.len(),
{
    if entries.len() == 0 {
        0
    } else {
        total_size(entries.drop_last()) + entries.last().bytes.len()
    }
}

/// The position of the resource stored under an identifier, searching from
/// `from`.
pub open spec fn resource_index(entries: Seq<StoredView>, stable_id: Seq<char>, from: int) -> Option<
    int,
>
    decreases entries.len() - from,
{
    if from < 0 || from >= entries.len() {
        None
    } else if entries[from].stable_id == stable_id {
        Some(from)
    } else {
        resource_index(entries, stable_id, from + 1)
    }
}

/// No identifier is stored twice.
pub open spec fn identifiers_distinct(entries: Seq<StoredView>) -> bool {
    forall|i: int, j: int|
        0 <= i < j < entries.len() ==> #[trigger] entries[i].stable_id != #[trigger] entries[j].stable_id
}

/// The search finds an entry with the identifier, or there is none from
/// `from` on.
proof fn lemma_resource_index(entries: Seq<StoredView>, stable_id: Seq<char>, from: int)
    requires
        0 <= from,
    ensures
        match resource_index(entries, stable_id, from) {
            Some(k) => from <= k < entries.len() && entries[k].stable_id == stable_id,
            None => forall|i: int| from <= i < entries.len() ==> #[trigger] entries[i].stable_id != stable_id,
        },
    decreases entries.len() - from,
{
    if from < entries.len() && entries[from].stable_id != stable_id {
        lemma_resource_index(entries, stable_id, from + 1);
    }
}

/// Replacing one resource changes the total by the difference in size.
proof fn lemma_total_after_update(entries: Seq<StoredView>, k: int, entry: StoredView)
    requires
        0 <= k < entries.len(),
    ensures
        total_size(entries.update(k, entry)) + entries[k].bytes.len() == total_size(entries)
            + entry.bytes.len(),
    decreases entries.len(),
{
    if k < entries.len() - 1 {
        assert(entries.update(k, entry).drop_last() =~= entries.drop_last().update(k, entry));
        lemma_total_after_update(entries.drop_last(), k, entry);
    } else {
        assert(entries.update(k, entry).drop_last() =~= entries.drop_last());
    }
}

/// Largest total held by a memory resource provider, in bytes.
pub const MAXIMUM_TOTAL_BYTES: usize = 268435456;

/// Authenticated resources held in memory, within a total byte budget.
pub struct MemoryResourceProvider {
    entries: Vec<StoredResource>,
    total_bytes: usize,
}

/// Abstract value of a [`MemoryResourceProvider`].
pub struct ResourceStoreView {
    pub entries: Seq<StoredView>,
    pub total_bytes: usize,
}

impl View for MemoryResourceProvider {
    type V = ResourceStoreView;

    closed spec fn view(&self) -> ResourceStoreView {
        ResourceStoreView { entries: stored_views(self.entries@), total_bytes: self.total_bytes }
    }
}

impl Default for MemoryResourceProvider {
    fn default() -> (provider: MemoryResourceProvider)
        ensures
            provider@.entries == Seq::<StoredView>::empty(),
            provider@.total_bytes == 0,
    {
        let provider = MemoryResourceProvider { entries: Vec::new(), total_bytes: 0 };
        assert(provider@.entries =~= Seq::<StoredView>::empty());
        provider
    }
}

/// The entry a claim and bytes are stored as.
pub open spec fn entry_of(claim: ResourceClaim, bytes: Seq<u8>) -> StoredView {
    StoredView { stable_id: claim.stable_id@, sha256: claim.sha256@, bytes }
}

impl MemoryResourceProvider {
    #[verifier::type_invariant]
    closed spec fn within_budget(self) -> bool {
        &&& self.total_bytes == total_size(stored_views(self.entries@))
        &&& self.total_bytes <= MAXIMUM_TOTAL_BYTES
        &&& identifiers_distinct(stored_views(self.entries@))
    }

    /// The position of the resource stored under an identifier.
    fn find(&self, stable_id: &str) -> (found: Option<usize>)
        ensures
            match resource_index(self@.entries, stable_id@, 0) {
                Some(i) => found is Some && found->Some_0 as int == i,
                None => found is None,
            },
            found is Some ==> found->Some_0 < self@.entries.len(),
    {
        let ghost views = self@.entries;
        let mut i: usize = 0;
        while i < self.entries.len()
            invariant
                0 <= i <= self.entries@.len(),
                views == stored_views(self.entries@),
                resource_index(views, stable_id@, 0) == resource_index(views, stable_id@, i as int),
            decreases self.entries@.len() - i,
        {
            assert(views[i as int].stable_id == self.entries@[i as int].stable_id@);
            if crate::transport::same_text(self.entries[i].stable_id.as_str(), stable_id) {
                return Some(i);
            }
            i = i + 1;
        }
        None
    }

    /// Verifies and stores a resource under its identifier, replacing what
    /// was stored there; refused, leaving the provider unchanged, when the
    /// bytes fail their claim or the total would exceed the budget.
    pub fn insert(&mut self, claim: &ResourceClaim, bytes: &[u8]) -> (result: Result<(), CacheError>)
        ensures
            match spec_verify_resource(*claim, bytes@) {
                Err(error) => result == Err::<(), CacheError>(error) && final(self)@ == old(self)@,
                Ok(()) => {
                    let index = resource_index(old(self)@.entries, claim.stable_id@, 0);
                    let replaced: int = match index {
                        Some(k) => old(self)@.entries[k].bytes.len() as int,
                        None => 0,
                    };
                    let total = old(self)@.total_bytes - replaced + bytes@.len();
                    if total > MAXIMUM_TOTAL_BYTES {
                        result == Err::<(), CacheError>(CacheError::SizeLimit) && final(self)@
                            == old(self)@
                    } else {
                        &&& result == Ok::<(), CacheError>(())
                        &&& identifiers_distinct(final(self)@.entries)
                        &&& final(self)@.total_bytes == total
                        &&& final(self)@.entries == match index {
                            Some(k) => old(self)@.entries.update(k, entry_of(*claim, bytes@)),
                            None => old(self)@.entries.push(entry_of(*claim, bytes@)),
                        }
                    }
                },
            },
    {
        proof {
            use_type_invariant(&*self);
        }
        match verify_resource(claim, bytes) {
            Err(error) => {
                return Err(error);
            },
            Ok(()) => {},
        }
        let found = self.find(claim.stable_id.as_str());
        proof {
            lemma_resource_index(self@.entries, claim.stable_id@, 0);
        }
        let replaced = match found {
            Some(k) => self.entries[k].bytes.len(),
            None => 0,
        };
        proof {
            if let Some(k) = found {
                assert(self@.entries[k as int].bytes == self.entries@[k as int].bytes@);
                lemma_total_after_update(self@.entries, k as int, entry_of(*claim, bytes@));
                lemma_total_after_update(
                    self@.entries,
                    k as int,
                    StoredView { stable_id: Seq::empty(), sha256: Seq::empty(), bytes: Seq::empty() },
                );
            }
        }
        let remaining = self.total_bytes - replaced;
        if bytes.len() > MAXIMUM_TOTAL_BYTES || remaining > MAXIMUM_TOTAL_BYTES - bytes.len() {
            return Err(CacheError::SizeLimit);
        }
        let total = remaining + bytes.len();
        let entry = StoredResource {
            stable_id: claim.stable_id.clone(),
            sha256: claim.sha256,
            bytes: vstd::slice::slice_to_vec(bytes),
        };
        let ghost before = self.entries@;
        let mut taken = MemoryResourceProvider { entries: Vec::new(), total_bytes: 0 };
        std::mem::swap(&mut taken, self);
        let MemoryResourceProvider { entries, total_bytes: _ } = taken;
        let mut entries = entries;
        match found {
            Some(k) => {
                entries.set(k, entry);
                assert(stored_views(entries@) =~= stored_views(before).update(
                    k as int,
                    entry_of(*claim, bytes@),
                ));
            },
            None => {
                entries.push(entry);
                assert(stored_views(entries@).drop_last() =~= stored_views(before));
                assert(stored_views(entries@) =~= stored_views(before).push(
                    entry_of(*claim, bytes@),
                ));
            },
        }
        *self = MemoryResourceProvider { entries, total_bytes: total };
        Ok(())
    }
}

impl ResourceProvider for MemoryResourceProvider {
    /// The bytes stored under the claim's identifier, if they were stored
    /// with the claim's digest.
    fn load(&self, claim: &ResourceClaim) -> (result: Result<Vec<u8>, CacheError>)
        ensures
            match resource_index(self@.entries, claim.stable_id@, 0) {
                Some(k) => if self@.entries[k].sha256 == claim.sha256@ {
                    result is Ok && result->Ok_0@ == self@.entries[k].bytes
                } else {
                    result == Err::<Vec<u8>, CacheError>(CacheError::Missing)
                },
                None => result == Err::<Vec<u8>, CacheError>(CacheError::Missing),
            },
    {
        match self.find(claim.stable_id.as_str()) {
            Some(k) => {
                let entry = &self.entries[k];
                assert(self@.entries[k as int] == StoredView {
                    stable_id: entry.stable_id@,
                    sha256: entry.sha256@,
                    bytes: entry.bytes@,
                });
                if bytes_equal(&entry.sha256, &claim.sha256) {
                    Ok(vstd::slice::slice_to_vec(entry.bytes.as_slice()))
                } else {
                    Err(CacheError::Missing)
                }
            },
            None => Err(CacheError::Missing),
        }
    }
}

} // verus!
