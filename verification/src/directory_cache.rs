//! Transactional last-known-good directory cache records.
//!
//! A cache entry is one file: a version line, five (or, for the legacy
//! version, three) `name:value` metadata lines, a blank line, and the exact
//! public directory body. This module owns the record format, its
//! validation, the file naming scheme and the choice of candidates; the
//! filesystem itself belongs to the caller.
use crate::digest::{sha256, sha256_digest};
use crate::directory_model::{
    bytes_equal, decode_sha256_hex, hex_decode, is_lower_hex, is_sha256_hex, parse_canonical_u64,
    DIRECTORY_BODY_BYTES_LIMIT, DIRECTORY_CLOCK_SKEW_SECONDS,
};
use crate::text::{
    ascii_chars, canonical_decimal, decimal_bytes, decimal_digits, hex_bytes, hex_lower,
    push_ascii,
};
use vstd::prelude::*;
use vstd::string::StringSliceAdditionalSpecFns;
use vstd::utf8::encode_utf8;

verus! {

/// Room for metadata in a cache entry beyond the body.
pub const CACHE_METADATA_ALLOWANCE: usize = 512;
/// Largest cache entry, in bytes.
pub const MAXIMUM_CACHE_ENTRY_BYTES: usize = 262656;
/// Largest number of recognized entries scanned in one load.
pub const MAXIMUM_CACHE_SCAN: usize = 64;
/// Number of newest records offered as candidates.
pub const MAXIMUM_CACHE_CANDIDATES: usize = 4;
/// Longest strong entity tag, in bytes.
pub const MAXIMUM_ETAG_BYTES: usize = 128;

/// One cached public directory body with its validators.
#[derive(Debug, PartialEq, Eq)]
pub struct CachedDirectory {
    pub received_at: u64,
    /// Exact static-alias publication second from `Last-Modified`.
    /// `None` is accepted only while reading a verified legacy record.
    pub published_at: Option<u64>,
    pub etag: String,
    pub body_sha256: [u8; 32],
    pub body: Vec<u8>,
}

/// Abstract value of a [`CachedDirectory`]; the tag is taken by its UTF-8 bytes.
pub struct CachedDirectoryView {
    pub received_at: u64,
    pub published_at: Option<u64>,
    pub etag: Seq<u8>,
    pub body_sha256: Seq<u8>,
    pub body: Seq<u8>,
}

impl View for CachedDirectory {
    type V = CachedDirectoryView;

    open spec fn view(&self) -> CachedDirectoryView {
        CachedDirectoryView {
            received_at: self.received_at,
            published_at: self.published_at,
            etag: encode_utf8(self.etag@),
            body_sha256: self.body_sha256@,
            body: self.body@,
        }
    }
}

impl Clone for CachedDirectory {
    fn clone(&self) -> (copy: CachedDirectory)
        ensures
            copy@ == self@,
    {
        CachedDirectory {
            received_at: self.received_at,
            published_at: self.published_at,
            etag: self.etag.clone(),
            body_sha256: self.body_sha256,
            body: self.body.clone(),
        }
    }
}

/// What a cache load found: the newest valid records, newest first, and how
/// many entries it had to reject.
#[derive(Clone, Debug, Default, PartialEq, Eq)]
pub struct CacheRead {
    pub candidates: Vec<CachedDirectory>,
    pub rejected_entries: usize,
}

/// Why a cache operation failed.
#[derive(Clone, Copy, Debug, PartialEq, Eq, Structural)]
pub enum DirectoryCacheError {
    Io,
    Capacity,
    InvalidRecord,
    Conflict,
}

impl DirectoryCacheError {
    /// Human-readable description of the failure.
    pub fn message(&self) -> (text: &'static str)
        ensures
            text == directory_cache_error_message(*self),
    {
        match self {
            DirectoryCacheError::Io => "directory cache I/O failed",
            DirectoryCacheError::Capacity => "directory cache entry scan exceeded its bound",
            DirectoryCacheError::InvalidRecord => "directory cache record is invalid",
            DirectoryCacheError::Conflict => "directory cache publication conflicted",
        }
    }
}

/// The fixed human-readable description of each cache failure.
pub open spec fn directory_cache_error_message(error: DirectoryCacheError) -> &'static str {
    match error {
        DirectoryCacheError::Io => "directory cache I/O failed",
        DirectoryCacheError::Capacity => "directory cache entry scan exceeded its bound",
        DirectoryCacheError::InvalidRecord => "directory cache record is invalid",
        DirectoryCacheError::Conflict => "directory cache publication conflicted",
    }
}

/// Storage for last-known-good directory records.
pub trait DirectoryCache {
    /// Whether this cache states its behaviour through
    /// [`DirectoryCache::loaded`] and [`DirectoryCache::stored`]; an
    /// implementation that does not override it states nothing.
    open spec fn obeys_cache_spec() -> bool {
        false
    }

    /// Whether this cache is what `before` became by a load that gave
    /// `result`.
    open spec fn loaded(&self, before: &Self, result: Result<CacheRead, DirectoryCacheError>) -> bool {
        false
    }

    /// Whether this cache is what `before` became by storing `record` with
    /// the outcome `result`.
    open spec fn stored(
        &self,
        before: &Self,
        record: CachedDirectoryView,
        result: Result<(), DirectoryCacheError>,
    ) -> bool {
        false
    }

    /// Offers the newest records held.
    fn load(&mut self) -> (result: Result<CacheRead, DirectoryCacheError>)
        ensures
            Self::obeys_cache_spec() ==> final(self).loaded(old(self), result),
    ;

    /// Publishes a record.
    fn store(&mut self, record: &CachedDirectory) -> (result: Result<(), DirectoryCacheError>)
        ensures
            Self::obeys_cache_spec() ==> final(self).stored(old(self), record@, result),
    ;
}

// ---------------------------------------------------------------------------
// The record format.
// ---------------------------------------------------------------------------
/// The version line of a current record.
pub open spec fn magic_v2() -> Seq<u8> {
    "ATRINIK-DIRECTORY-CACHE-V2\n".spec_bytes()
}

/// The version line of a legacy record.
pub open spec fn magic_v1() -> Seq<u8> {
    "ATRINIK-DIRECTORY-CACHE-V1\n".spec_bytes()
}

/// A strong entity tag: 3 to 128 bytes, quoted, holding only visible ASCII
/// other than quote and backslash.
pub open spec fn is_strong_etag(value: Seq<u8>) -> bool {
    &&& 3 <= value.len() <= MAXIMUM_ETAG_BYTES
    &&& value[0] == 34u8
    &&& value.last() == 34u8
    &&& forall|i: int|
        0 < i < value.len() - 1 ==> 33 <= #[trigger] value[i] <= 126 && value[i] != 34u8
            && value[i] != 92u8
}

/// The prefix of a legacy entity tag; the SHA-256 of the body follows it in
/// lowercase hexadecimal, then a closing quote.
pub open spec fn legacy_etag_prefix() -> Seq<u8> {
    "\"atrinik-directory-v1-sha256-".spec_bytes()
}

/// The body digest that a legacy entity tag names, if it is one.
pub open spec fn legacy_body_etag_digest(value: Seq<u8>) -> Option<Seq<u8>> {
    let prefix = legacy_etag_prefix();
    if value.len() == prefix.len() + 65 && value.take(prefix.len() as int) == prefix
        && value.last() == 34u8 && is_sha256_hex(
        value.subrange(prefix.len() as int, value.len() - 1),
    ) {
        Some(hex_decode(value.subrange(prefix.len() as int, value.len() - 1)))
    } else {
        None
    }
}

/// A record that may be stored: it carries its publication second, its body
/// is within the protocol bound, its tag is strong, its digest matches its
/// body, and it was not published more than the allowed skew after it was
/// received.
pub open spec fn record_shape_valid(record: CachedDirectoryView) -> bool {
    record_shape_valid_for_digest(record, sha256(record.body))
}

/// Whether a record may be stored, given the digest of its body.
pub open spec fn record_shape_valid_for_digest(record: CachedDirectoryView, body_digest: Seq<u8>) -> bool {
    &&& record.published_at is Some
    &&& record.body.len() <= DIRECTORY_BODY_BYTES_LIMIT
    &&& is_strong_etag(record.etag)
    &&& body_digest == record.body_sha256
    &&& record.published_at->Some_0 <= record.received_at + DIRECTORY_CLOCK_SKEW_SECONDS
}

/// The legacy record with a received time, tag and body, given the digest
/// of the body: present only when the tag names that digest.
pub open spec fn spec_legacy_record(
    received_at: u64,
    etag: Seq<u8>,
    body: Seq<u8>,
    body_digest: Seq<u8>,
) -> Option<CachedDirectoryView> {
    if legacy_body_etag_digest(etag) == Some(body_digest) {
        Some(
            CachedDirectoryView {
                received_at,
                published_at: None,
                etag,
                body_sha256: body_digest,
                body,
            },
        )
    } else {
        None
    }
}

/// Bytes without a newline.
pub open spec fn no_newline(s: Seq<u8>) -> bool {
    forall|i: int| 0 <= i < s.len() ==> #[trigger] s[i] != 10u8
}

/// Whether a blank line (two consecutive newlines) starts at `i`.
pub open spec fn blank_at(s: Seq<u8>, i: int) -> bool {
    s[i] == 10u8 && s[i + 1] == 10u8
}

/// Nonempty lines joined by single newlines: the text neither starts nor
/// ends with a newline and holds no blank line.
pub open spec fn joined_lines(s: Seq<u8>) -> bool {
    &&& s.len() > 0
    &&& s[0] != 10u8
    &&& s.last() != 10u8
    &&& forall|i: int| 0 <= i < s.len() - 1 ==> !#[trigger] blank_at(s, i)
}

/// The first blank line (two consecutive newlines) at or after `from`.
pub open spec fn first_blank_line(s: Seq<u8>, from: int) -> Option<int>
    decreases s.len() - from,
{
    if from < 0 || from + 1 >= s.len() {
        None
    } else if s[from] == 10u8 && s[from + 1] == 10u8 {
        Some(from)
    } else {
        first_blank_line(s, from + 1)
    }
}

/// A line without the carriage return that precedes its newline, if any.
pub open spec fn strip_cr(line: Seq<u8>) -> Seq<u8> {
    if line.len() > 0 && line.last() == 13u8 {
        line.drop_last()
    } else {
        line
    }
}

/// The lines of `s` from a line that starts at `start`, scanning at `pos`:
/// each newline ends a line (and drops one carriage return before it); a
/// final line without newline is kept as it is.
pub open spec fn lines_scan(s: Seq<u8>, start: int, pos: int) -> Seq<Seq<u8>>
    decreases s.len() - pos,
{
    if pos >= s.len() {
        if start < s.len() {
            seq![s.subrange(start, s.len() as int)]
        } else {
            Seq::empty()
        }
    } else if s[pos] == 10u8 {
        seq![strip_cr(s.subrange(start, pos))] + lines_scan(s, pos + 1, pos + 1)
    } else {
        lines_scan(s, start, pos + 1)
    }
}

/// The text lines of a byte string.
pub open spec fn text_lines(s: Seq<u8>) -> Seq<Seq<u8>> {
    lines_scan(s, 0, 0)
}

/// The value of a `name:value` line, if the line has that name.
pub open spec fn field(line: Seq<u8>, name: Seq<u8>) -> Option<Seq<u8>> {
    if name.len() <= line.len() && line.take(name.len() as int) == name {
        Some(line.skip(name.len() as int))
    } else {
        None
    }
}

/// A canonical body length within the protocol bound.
pub open spec fn body_length(digits: Seq<u8>) -> Option<nat> {
    match canonical_decimal(digits) {
        Some(value) => if value <= DIRECTORY_BODY_BYTES_LIMIT {
            Some(value as nat)
        } else {
            None
        },
        None => None,
    }
}

/// The metadata and body of an entry whose version line has `magic_len` bytes.
pub open spec fn split_entry(input: Seq<u8>, magic_len: int) -> Option<(Seq<u8>, Seq<u8>)> {
    match first_blank_line(input, magic_len) {
        Some(p) => Some((input.subrange(magic_len, p), input.subrange(p + 2, input.len() as int))),
        None => None,
    }
}

/// The record that a current-version entry encodes, if it is well formed.
pub open spec fn spec_decode_v2(input: Seq<u8>) -> Option<CachedDirectoryView> {
    match split_entry(input, magic_v2().len() as int) {
        None => None,
        Some((metadata, body)) => {
            let lines = text_lines(metadata);
            let received = field(lines[0], "received-at:".spec_bytes());
            let published = field(lines[1], "published-at:".spec_bytes());
            let etag = field(lines[2], "etag:".spec_bytes());
            let digest = field(lines[3], "body-sha256:".spec_bytes());
            let length = field(lines[4], "body-bytes:".spec_bytes());
            if lines.len() == 5 && received is Some && canonical_decimal(received->Some_0) is Some
                && published is Some && canonical_decimal(published->Some_0) is Some
                && etag is Some && is_strong_etag(etag->Some_0) && digest is Some
                && is_sha256_hex(digest->Some_0) && length is Some && body_length(
                length->Some_0,
            ) == Some(body.len()) {
                let record = CachedDirectoryView {
                    received_at: canonical_decimal(received->Some_0)->Some_0,
                    published_at: Some(canonical_decimal(published->Some_0)->Some_0),
                    etag: etag->Some_0,
                    body_sha256: hex_decode(digest->Some_0),
                    body,
                };
                if record_shape_valid(record) {
                    Some(record)
                } else {
                    None
                }
            } else {
                None
            }
        },
    }
}

/// The record that a legacy entry encodes, if it is well formed and its tag
/// names the digest of its body.
pub open spec fn spec_decode_v1(input: Seq<u8>) -> Option<CachedDirectoryView> {
    match split_entry(input, magic_v1().len() as int) {
        None => None,
        Some((metadata, body)) => {
            let lines = text_lines(metadata);
            let received = field(lines[0], "received-at:".spec_bytes());
            let etag = field(lines[1], "etag:".spec_bytes());
            let length = field(lines[2], "body-bytes:".spec_bytes());
            if lines.len() == 3 && received is Some && canonical_decimal(received->Some_0) is Some
                && etag is Some && length is Some && body_length(length->Some_0) == Some(
                body.len(),
            ) {
                spec_legacy_record(
                    canonical_decimal(received->Some_0)->Some_0,
                    etag->Some_0,
                    body,
                    sha256(body),
                )
            } else {
                None
            }
        },
    }
}

/// The record that a cache entry encodes, if any.
pub open spec fn spec_decode_record(input: Seq<u8>) -> Option<CachedDirectoryView> {
    if input.len() > MAXIMUM_CACHE_ENTRY_BYTES {
        None
    } else if magic_v2().len() <= input.len() && input.take(magic_v2().len() as int)
        == magic_v2() {
        spec_decode_v2(input)
    } else if magic_v1().len() <= input.len() && input.take(magic_v1().len() as int)
        == magic_v1() {
        spec_decode_v1(input)
    } else {
        None
    }
}

/// The entry that encodes a record: version line, five metadata lines, a
/// blank line, then the body.
pub open spec fn spec_encode_v2(record: CachedDirectoryView) -> Seq<u8> {
    magic_v2() + "received-at:".spec_bytes() + decimal_digits(record.received_at as nat)
        + "\n".spec_bytes() + "published-at:".spec_bytes() + decimal_digits(
        record.published_at->Some_0 as nat,
    ) + "\n".spec_bytes() + "etag:".spec_bytes() + record.etag + "\n".spec_bytes()
        + "body-sha256:".spec_bytes() + hex_lower(record.body_sha256) + "\n".spec_bytes()
        + "body-bytes:".spec_bytes() + decimal_digits(record.body.len()) + "\n\n".spec_bytes()
        + record.body
}

/// What encoding a record gives: the entry, or why it cannot be stored.
pub open spec fn spec_encode_record(record: CachedDirectoryView) -> Result<
    Seq<u8>,
    DirectoryCacheError,
> {
    if !record_shape_valid(record) || spec_encode_v2(record).len() > MAXIMUM_CACHE_ENTRY_BYTES {
        Err(DirectoryCacheError::InvalidRecord)
    } else {
        Ok(spec_encode_v2(record))
    }
}

// ---------------------------------------------------------------------------
// Byte helpers.
// ---------------------------------------------------------------------------
/// Appends bytes to a buffer.
fn append_bytes(out: &mut Vec<u8>, bytes: &[u8])
    ensures
        final(out)@ == old(out)@ + bytes@,
{
    let mut i: usize = 0;
    while i < bytes.len()
        invariant
            0 <= i <= bytes@.len(),
            out@ == old(out)@ + bytes@.take(i as int),
        decreases bytes@.len() - i,
    {
        out.push(bytes[i]);
        assert(bytes@.take(i + 1) =~= bytes@.take(i as int).push(bytes@[i as int]));
        i = i + 1;
    }
    assert(bytes@.take(i as int) =~= bytes@);
}

/// Whether `input` starts with `prefix`.
fn has_prefix(input: &[u8], prefix: &[u8]) -> (found: bool)
    ensures
        found == (prefix@.len() <= input@.len() && input@.take(prefix@.len() as int) == prefix@),
{
    if prefix.len() > input.len() {
        return false;
    }
    let mut i: usize = 0;
    while i < prefix.len()
        invariant
            prefix@.len() <= input@.len(),
            0 <= i <= prefix@.len(),
            forall|j: int| 0 <= j < i ==> input@[j] == prefix@[j],
        decreases prefix@.len() - i,
    {
        if input[i] != prefix[i] {
            assert(input@.take(prefix@.len() as int)[i as int] != prefix@[i as int]);
            return false;
        }
        i = i + 1;
    }
    assert(input@.take(prefix@.len() as int) =~= prefix@);
    true
}

/// Finds the first blank line at or after `from`.
fn find_blank_line(input: &[u8], from: usize) -> (found: Option<usize>)
    ensures
        match found {
            Some(p) => first_blank_line(input@, from as int) == Some(p as int) && from <= p && p
                + 2 <= input@.len(),
            None => first_blank_line(input@, from as int) is None,
        },
{
    let mut i: usize = from;
    while i < input.len() && i + 1 < input.len()
        invariant
            from <= i,
            first_blank_line(input@, from as int) == first_blank_line(input@, i as int),
        decreases input@.len() - i,
    {
        if input[i] == 10 && input[i + 1] == 10 {
            return Some(i);
        }
        i = i + 1;
    }
    None
}

/// A line of `s` between `start` and `end`, without a carriage return that
/// ends it.
fn line_copy(s: &[u8], start: usize, end: usize) -> (line: Vec<u8>)
    requires
        start <= end <= s@.len(),
    ensures
        line@ == strip_cr(s@.subrange(start as int, end as int)),
{
    let mut line: Vec<u8> = Vec::new();
    append_bytes(&mut line, &s[start..end]);
    if line.len() > 0 && line[line.len() - 1] == 13 {
        line.pop();
        assert(line@ =~= s@.subrange(start as int, end as int).drop_last());
    }
    line
}

/// The contents of a list of byte buffers.
pub open spec fn buffer_views(buffers: Seq<Vec<u8>>) -> Seq<Seq<u8>> {
    buffers.map_values(|buffer: Vec<u8>| buffer@)
}

/// Splits a byte string into its text lines.
fn split_lines(s: &[u8]) -> (lines: Vec<Vec<u8>>)
    ensures
        buffer_views(lines@) == text_lines(s@),
{
    let mut lines: Vec<Vec<u8>> = Vec::new();
    let mut start: usize = 0;
    let mut pos: usize = 0;
    while pos < s.len()
        invariant
            start <= pos <= s@.len(),
            buffer_views(lines@) + lines_scan(s@, start as int, pos as int) == text_lines(s@),
        decreases s@.len() - pos,
    {
        if s[pos] == 10 {
            let line = line_copy(s, start, pos);
            let ghost before = buffer_views(lines@);
            lines.push(line);
            assert(buffer_views(lines@) =~= before.push(line@));
            assert(before + lines_scan(s@, start as int, pos as int) =~= buffer_views(lines@)
                + lines_scan(s@, pos + 1, pos + 1));
            start = pos + 1;
        }
        pos = pos + 1;
    }
    if start < s.len() {
        let ghost before = buffer_views(lines@);
        let mut line: Vec<u8> = Vec::new();
        append_bytes(&mut line, &s[start..s.len()]);
        lines.push(line);
        assert(buffer_views(lines@) =~= before.push(s@.subrange(start as int, s@.len() as int)));
    } else {
        assert(buffer_views(lines@) + lines_scan(s@, start as int, pos as int) =~= buffer_views(lines@));
    }
    lines
}

/// The value of a `name:value` line, if the line has that name.
fn field_value<'a>(line: &'a [u8], name: &[u8]) -> (value: Option<&'a [u8]>)
    ensures
        match value {
            Some(v) => field(line@, name@) == Some(v@),
            None => field(line@, name@) is None,
        },
{
    if has_prefix(line, name) {
        let v = &line[name.len()..line.len()];
        assert(v@ =~= line@.skip(name@.len() as int));
        Some(v)
    } else {
        None
    }
}

/// Whether bytes form a strong entity tag.
fn strong_etag_bytes(value: &[u8]) -> (valid: bool)
    ensures
        valid == is_strong_etag(value@),
{
    if value.len() < 3 || value.len() > MAXIMUM_ETAG_BYTES || value[0] != 34 || value[value.len()
        - 1] != 34 {
        return false;
    }
    let mut i: usize = 1;
    while i + 1 < value.len()
        invariant
            3 <= value@.len() <= MAXIMUM_ETAG_BYTES,
            1 <= i <= value@.len() - 1,
            forall|j: int|
                0 < j < i ==> 33 <= #[trigger] value@[j] <= 126 && value@[j] != 34u8 && value@[j]
                    != 92u8,
        decreases value@.len() - i,
    {
        let b = value[i];
        if b < 33 || b > 126 || b == 34 || b == 92 {
            return false;
        }
        i = i + 1;
    }
    true
}

/// Whether a value is a strong entity tag: 3 to 128 bytes, quoted, holding
/// only visible ASCII other than quote and backslash.
pub fn valid_strong_etag(value: &str) -> (valid: bool)
    ensures
        valid == is_strong_etag(value.spec_bytes()),
{
    strong_etag_bytes(value.as_bytes())
}

/// The body digest that a legacy entity tag names, if it is one.
fn legacy_digest(value: &[u8]) -> (digest: Option<[u8; 32]>)
    ensures
        match digest {
            Some(d) => legacy_body_etag_digest(value@) == Some(d@),
            None => legacy_body_etag_digest(value@) is None,
        },
{
    let prefix = "\"atrinik-directory-v1-sha256-".as_bytes();
    proof {
        lemma_legacy_prefix_ascii();
    }
    if value.len() != prefix.len() + 65 || !has_prefix(value, prefix) || value[value.len() - 1]
        != 34 {
        return None;
    }
    decode_sha256_hex(&value[prefix.len()..value.len() - 1])
}

/// A canonical body length within the protocol bound.
fn parse_body_length(digits: &[u8]) -> (length: Option<usize>)
    ensures
        match length {
            Some(n) => body_length(digits@) == Some(n as nat),
            None => body_length(digits@) is None,
        },
{
    match parse_canonical_u64(digits) {
        Some(value) => if value <= 262144 {
            Some(value as usize)
        } else {
            None
        },
        None => None,
    }
}

/// ASCII bytes read as characters encode back to the same bytes.
proof fn lemma_ascii_round_trip(bytes: Seq<u8>)
    requires
        forall|i: int| 0 <= i < bytes.len() ==> #[trigger] bytes[i] < 128,
    ensures
        encode_utf8(ascii_chars(bytes)) == bytes,
{
    let chars = ascii_chars(bytes);
    assert forall|i: int| 0 <= i < chars.len() implies '\0' <= #[trigger] chars[i] <= '\u{7f}' by {
        assert(chars[i] == bytes[i] as char);
    }
    vstd::utf8::is_ascii_chars_encode_utf8(chars);
    assert forall|i: int| 0 <= i < bytes.len() implies encode_utf8(chars)[i] == bytes[i] by {
        assert(chars[i] == bytes[i] as char);
    }
    assert(encode_utf8(chars) =~= bytes);
}

/// A string of the given ASCII bytes.
pub fn ascii_string(bytes: &[u8]) -> (text: String)
    requires
        forall|i: int| 0 <= i < bytes@.len() ==> #[trigger] bytes@[i] < 128,
    ensures
        encode_utf8(text@) == bytes@,
{
    let mut text = String::new();
    push_ascii(&mut text, bytes);
    proof {
        assert(text@ =~= ascii_chars(bytes@));
        lemma_ascii_round_trip(bytes@);
    }
    text
}

/// Checks that a record may be stored.
fn validate_record_shape(record: &CachedDirectory) -> (result: Result<(), DirectoryCacheError>)
    ensures
        result == (if record_shape_valid(record@) {
            Ok::<(), DirectoryCacheError>(())
        } else {
            Err(DirectoryCacheError::InvalidRecord)
        }),
{
    let digest = sha256_digest(record.body.as_slice());
    if record_shape_ok(record, &digest) {
        Ok(())
    } else {
        Err(DirectoryCacheError::InvalidRecord)
    }
}

/// Whether a record may be stored, given the digest of its body.
pub fn record_shape_ok(record: &CachedDirectory, body_digest: &[u8; 32]) -> (valid: bool)
    ensures
        valid == record_shape_valid_for_digest(record@, body_digest@),
{
    let published_at = match record.published_at {
        Some(value) => value,
        None => {
            return false;
        },
    };
    if record.body.len() > DIRECTORY_BODY_BYTES_LIMIT {
        return false;
    }
    if !valid_strong_etag(record.etag.as_str()) {
        return false;
    }
    if !bytes_equal(body_digest, &record.body_sha256) {
        return false;
    }
    published_at <= record.received_at.saturating_add(DIRECTORY_CLOCK_SKEW_SECONDS)
}

/// Decodes a current-version entry.
fn decode_v2_record(input: &[u8]) -> (result: Result<CachedDirectory, DirectoryCacheError>)
    ensures
        match spec_decode_v2(input@) {
            Some(record) => result is Ok && result->Ok_0@ == record,
            None => result == Err::<CachedDirectory, DirectoryCacheError>(
                DirectoryCacheError::InvalidRecord,
            ),
        },
{
    let magic = "ATRINIK-DIRECTORY-CACHE-V2\n".as_bytes();
    let start = magic.len();
    let found = find_blank_line(input, start);
    let delimiter = match found {
        Some(p) => p,
        None => {
            return Err(DirectoryCacheError::InvalidRecord);
        },
    };
    let length_of_input = input.len();
    assert(start <= delimiter && delimiter + 2 <= length_of_input);
    let metadata = &input[start..delimiter];
    let body = &input[delimiter + 2..length_of_input];
    let lines = split_lines(metadata);
    proof {
        assert(split_entry(input@, magic_v2().len() as int) == Some((metadata@, body@)));
    }
    if lines.len() != 5 {
        return Err(DirectoryCacheError::InvalidRecord);
    }
    let ghost views = buffer_views(lines@);
    assert(views[0] == lines@[0]@ && views[1] == lines@[1]@ && views[2] == lines@[2]@ && views[3]
        == lines@[3]@ && views[4] == lines@[4]@);
    let received = match field_value(lines[0].as_slice(), "received-at:".as_bytes()) {
        Some(v) => v,
        None => {
            return Err(DirectoryCacheError::InvalidRecord);
        },
    };
    let received_at = match parse_canonical_u64(received) {
        Some(v) => v,
        None => {
            return Err(DirectoryCacheError::InvalidRecord);
        },
    };
    let published = match field_value(lines[1].as_slice(), "published-at:".as_bytes()) {
        Some(v) => v,
        None => {
            return Err(DirectoryCacheError::InvalidRecord);
        },
    };
    let published_at = match parse_canonical_u64(published) {
        Some(v) => v,
        None => {
            return Err(DirectoryCacheError::InvalidRecord);
        },
    };
    let etag = match field_value(lines[2].as_slice(), "etag:".as_bytes()) {
        Some(v) => v,
        None => {
            return Err(DirectoryCacheError::InvalidRecord);
        },
    };
    if !strong_etag_bytes(etag) {
        return Err(DirectoryCacheError::InvalidRecord);
    }
    let digest = match field_value(lines[3].as_slice(), "body-sha256:".as_bytes()) {
        Some(v) => v,
        None => {
            return Err(DirectoryCacheError::InvalidRecord);
        },
    };
    let body_sha256 = match decode_sha256_hex(digest) {
        Some(v) => v,
        None => {
            return Err(DirectoryCacheError::InvalidRecord);
        },
    };
    let length_digits = match field_value(lines[4].as_slice(), "body-bytes:".as_bytes()) {
        Some(v) => v,
        None => {
            return Err(DirectoryCacheError::InvalidRecord);
        },
    };
    let length = match parse_body_length(length_digits) {
        Some(v) => v,
        None => {
            return Err(DirectoryCacheError::InvalidRecord);
        },
    };
    if body.len() != length {
        return Err(DirectoryCacheError::InvalidRecord);
    }
    let record = CachedDirectory {
        received_at,
        published_at: Some(published_at),
        etag: ascii_string(etag),
        body_sha256,
        body: vstd::slice::slice_to_vec(body),
    };
    match validate_record_shape(&record) {
        Ok(()) => Ok(record),
        Err(error) => Err(error),
    }
}

/// The legacy tag prefix is 29 ASCII bytes.
pub proof fn lemma_legacy_prefix_ascii()
    ensures
        legacy_etag_prefix().len() == 29,
        forall|i: int| 0 <= i < 29 ==> #[trigger] legacy_etag_prefix()[i] < 128,
{
    reveal_strlit("\"atrinik-directory-v1-sha256-");
    let chars = "\"atrinik-directory-v1-sha256-"@;
    assert(vstd::utf8::is_ascii_chars(chars));
    vstd::utf8::is_ascii_chars_encode_utf8(chars);
}

/// A legacy tag is ASCII.
proof fn lemma_legacy_etag_ascii(value: Seq<u8>, i: int)
    requires
        legacy_body_etag_digest(value) is Some,
        0 <= i < value.len(),
    ensures
        value[i] < 128,
{
    lemma_legacy_prefix_ascii();
    let prefix = legacy_etag_prefix();
    if i < 29 {
        assert(value.take(29)[i] == value[i]);
    } else if i < value.len() - 1 {
        assert(value.subrange(29, value.len() - 1)[i - 29] == value[i]);
    }
}

/// Decodes a legacy entry, whose tag names the digest of its body.
fn decode_v1_record(input: &[u8]) -> (result: Result<CachedDirectory, DirectoryCacheError>)
    ensures
        match spec_decode_v1(input@) {
            Some(record) => result is Ok && result->Ok_0@ == record,
            None => result == Err::<CachedDirectory, DirectoryCacheError>(
                DirectoryCacheError::InvalidRecord,
            ),
        },
{
    let magic = "ATRINIK-DIRECTORY-CACHE-V1\n".as_bytes();
    let start = magic.len();
    let found = find_blank_line(input, start);
    let delimiter = match found {
        Some(p) => p,
        None => {
            return Err(DirectoryCacheError::InvalidRecord);
        },
    };
    let length_of_input = input.len();
    assert(start <= delimiter && delimiter + 2 <= length_of_input);
    let metadata = &input[start..delimiter];
    let body = &input[delimiter + 2..length_of_input];
    let lines = split_lines(metadata);
    proof {
        assert(split_entry(input@, magic_v1().len() as int) == Some((metadata@, body@)));
    }
    if lines.len() != 3 {
        return Err(DirectoryCacheError::InvalidRecord);
    }
    let ghost views = buffer_views(lines@);
    assert(views[0] == lines@[0]@ && views[1] == lines@[1]@ && views[2] == lines@[2]@);
    let received = match field_value(lines[0].as_slice(), "received-at:".as_bytes()) {
        Some(v) => v,
        None => {
            return Err(DirectoryCacheError::InvalidRecord);
        },
    };
    let received_at = match parse_canonical_u64(received) {
        Some(v) => v,
        None => {
            return Err(DirectoryCacheError::InvalidRecord);
        },
    };
    let etag = match field_value(lines[1].as_slice(), "etag:".as_bytes()) {
        Some(v) => v,
        None => {
            return Err(DirectoryCacheError::InvalidRecord);
        },
    };
    let length_digits = match field_value(lines[2].as_slice(), "body-bytes:".as_bytes()) {
        Some(v) => v,
        None => {
            return Err(DirectoryCacheError::InvalidRecord);
        },
    };
    let length = match parse_body_length(length_digits) {
        Some(v) => v,
        None => {
            return Err(DirectoryCacheError::InvalidRecord);
        },
    };
    if body.len() != length {
        return Err(DirectoryCacheError::InvalidRecord);
    }
    let body_sha256 = sha256_digest(body);
    legacy_record(received_at, etag, body, &body_sha256)
}

/// The legacy record with a received time, tag and body, given the digest
/// of the body (see [`spec_legacy_record`]).
pub fn legacy_record(received_at: u64, etag: &[u8], body: &[u8], body_digest: &[u8; 32]) -> (result:
    Result<CachedDirectory, DirectoryCacheError>)
    ensures
        match spec_legacy_record(received_at, etag@, body@, body_digest@) {
            Some(record) => result is Ok && result->Ok_0@ == record,
            None => result == Err::<CachedDirectory, DirectoryCacheError>(
                DirectoryCacheError::InvalidRecord,
            ),
        },
{
    let named = match legacy_digest(etag) {
        Some(v) => v,
        None => {
            return Err(DirectoryCacheError::InvalidRecord);
        },
    };
    if !bytes_equal(&named, body_digest) {
        return Err(DirectoryCacheError::InvalidRecord);
    }
    proof {
        assert forall|i: int| 0 <= i < etag@.len() implies #[trigger] etag@[i] < 128 by {
            lemma_legacy_etag_ascii(etag@, i);
        }
    }
    Ok(
        CachedDirectory {
            received_at,
            published_at: None,
            etag: ascii_string(etag),
            body_sha256: *body_digest,
            body: vstd::slice::slice_to_vec(body),
        },
    )
}

/// Decodes a cache entry of either version.
pub fn decode_record(input: &[u8]) -> (result: Result<CachedDirectory, DirectoryCacheError>)
    ensures
        match spec_decode_record(input@) {
            Some(record) => result is Ok && result->Ok_0@ == record,
            None => result == Err::<CachedDirectory, DirectoryCacheError>(
                DirectoryCacheError::InvalidRecord,
            ),
        },
{
    if input.len() > MAXIMUM_CACHE_ENTRY_BYTES {
        return Err(DirectoryCacheError::InvalidRecord);
    }
    if has_prefix(input, "ATRINIK-DIRECTORY-CACHE-V2\n".as_bytes()) {
        decode_v2_record(input)
    } else if has_prefix(input, "ATRINIK-DIRECTORY-CACHE-V1\n".as_bytes()) {
        decode_v1_record(input)
    } else {
        Err(DirectoryCacheError::InvalidRecord)
    }
}

/// Encodes a record as a current-version entry.
pub fn encode_record(record: &CachedDirectory) -> (result: Result<Vec<u8>, DirectoryCacheError>)
    ensures
        match spec_encode_record(record@) {
            Ok(bytes) => result is Ok && result->Ok_0@ == bytes,
            Err(error) => result == Err::<Vec<u8>, DirectoryCacheError>(error),
        },
{
    match validate_record_shape(record) {
        Ok(()) => {},
        Err(error) => {
            return Err(error);
        },
    }
    let published_at = match record.published_at {
        Some(value) => value,
        None => {
            return Err(DirectoryCacheError::InvalidRecord);
        },
    };
    let mut output: Vec<u8> = Vec::new();
    append_bytes(&mut output, "ATRINIK-DIRECTORY-CACHE-V2\n".as_bytes());
    append_bytes(&mut output, "received-at:".as_bytes());
    let received_digits = decimal_bytes(record.received_at);
    append_bytes(&mut output, received_digits.as_slice());
    append_bytes(&mut output, "\n".as_bytes());
    append_bytes(&mut output, "published-at:".as_bytes());
    let published_digits = decimal_bytes(published_at);
    append_bytes(&mut output, published_digits.as_slice());
    append_bytes(&mut output, "\n".as_bytes());
    append_bytes(&mut output, "etag:".as_bytes());
    append_bytes(&mut output, record.etag.as_str().as_bytes());
    append_bytes(&mut output, "\n".as_bytes());
    append_bytes(&mut output, "body-sha256:".as_bytes());
    let digest_digits = hex_bytes(&record.body_sha256);
    append_bytes(&mut output, digest_digits.as_slice());
    append_bytes(&mut output, "\n".as_bytes());
    append_bytes(&mut output, "body-bytes:".as_bytes());
    let length_digits = decimal_bytes(record.body.len() as u64);
    append_bytes(&mut output, length_digits.as_slice());
    append_bytes(&mut output, "\n\n".as_bytes());
    append_bytes(&mut output, record.body.as_slice());
    if output.len() > MAXIMUM_CACHE_ENTRY_BYTES {
        return Err(DirectoryCacheError::InvalidRecord);
    }
    Ok(output)
}

// ---------------------------------------------------------------------------
// File names.
// ---------------------------------------------------------------------------
/// The low `width` bytes of a number, most significant first.
pub open spec fn big_endian(n: nat, width: nat) -> Seq<u8>
    decreases width,
{
    if width == 0 {
        Seq::empty()
    } else {
        big_endian(n / 256, (width - 1) as nat).push((n % 256) as u8)
    }
}

/// The low `width` decimal digits of a number, most significant first; for
/// numbers below ten to the `width`, the number padded with leading zeros.
pub open spec fn fixed_decimal(n: nat, width: nat) -> Seq<u8>
    decreases width,
{
    if width == 0 {
        Seq::empty()
    } else {
        fixed_decimal(n / 10, (width - 1) as nat).push(((n % 10) + 48) as u8)
    }
}

/// What a current record's file-name digest is taken over: a key label,
/// the receive and publication seconds, the tag's length and bytes, and the
/// body digest.
pub open spec fn cache_key_material(record: CachedDirectoryView) -> Seq<u8> {
    "ATRINIK-DIRECTORY-CACHE-KEY-V2\0".spec_bytes() + big_endian(record.received_at as nat, 8)
        + big_endian(record.published_at->Some_0 as nat, 8) + big_endian(record.etag.len(), 2)
        + record.etag + record.body_sha256
}

/// The digest that names a record's file: for a legacy record its body
/// digest, otherwise the SHA-256 of its key material.
pub open spec fn cache_name_digest(record: CachedDirectoryView) -> Seq<u8> {
    match record.published_at {
        None => record.body_sha256,
        Some(_) => sha256(cache_key_material(record)),
    }
}

/// The file name of a record: `directory-`, the receive second in twenty
/// digits, `-`, the name digest in lowercase hexadecimal, and `.cache`.
pub open spec fn cache_filename_bytes(record: CachedDirectoryView) -> Seq<u8> {
    "directory-".spec_bytes() + fixed_decimal(record.received_at as nat, 20) + "-".spec_bytes()
        + hex_lower(cache_name_digest(record)) + ".cache".spec_bytes()
}

/// A file name that the cache may have written: `directory-`, twenty
/// decimal digits, `-`, sixty-four lowercase hexadecimal digits, `.cache`.
pub open spec fn recognized_name(name: Seq<u8>) -> bool {
    let prefix = "directory-".spec_bytes();
    let suffix = ".cache".spec_bytes();
    let stem = name.subrange(prefix.len() as int, prefix.len() + 85int);
    &&& name.len() == prefix.len() + 85 + suffix.len()
    &&& name.take(prefix.len() as int) == prefix
    &&& name.skip(prefix.len() + 85int) == suffix
    &&& forall|i: int| 0 <= i < 20 ==> crate::text::is_digit(#[trigger] stem[i])
    &&& stem[20] == 45u8
    &&& forall|i: int| 21 <= i < 85 ==> is_lower_hex(#[trigger] stem[i])
}

/// Appends the low `width` bytes of a number, most significant first.
fn push_big_endian(out: &mut Vec<u8>, n: u64, width: usize)
    ensures
        final(out)@ == old(out)@ + big_endian(n as nat, width as nat),
    decreases width,
{
    if width > 0 {
        push_big_endian(out, n / 256, width - 1);
        out.push((n % 256) as u8);
        assert(out@ =~= old(out)@ + big_endian(n as nat, width as nat));
    } else {
        assert(out@ =~= old(out)@ + big_endian(n as nat, width as nat));
    }
}

/// Appends the low `width` decimal digits of a number.
fn push_fixed_decimal(out: &mut Vec<u8>, n: u64, width: usize)
    ensures
        final(out)@ == old(out)@ + fixed_decimal(n as nat, width as nat),
    decreases width,
{
    if width > 0 {
        push_fixed_decimal(out, n / 10, width - 1);
        out.push(((n % 10) as u8) + 48);
        assert(out@ =~= old(out)@ + fixed_decimal(n as nat, width as nat));
    } else {
        assert(out@ =~= old(out)@ + fixed_decimal(n as nat, width as nat));
    }
}

/// The file name under which a record is stored.
pub fn cache_filename(record: &CachedDirectory) -> (name: String)
    requires
        record.published_at is Some ==> encode_utf8(record.etag@).len() <= u16::MAX,
    ensures
        name@ == ascii_chars(cache_filename_bytes(record@)),
        recognized_name(cache_filename_bytes(record@)),
{
    let digest: [u8; 32] = match record.published_at {
        None => record.body_sha256,
        Some(published_at) => {
            let mut material: Vec<u8> = Vec::new();
            append_bytes(&mut material, "ATRINIK-DIRECTORY-CACHE-KEY-V2\0".as_bytes());
            push_big_endian(&mut material, record.received_at, 8);
            push_big_endian(&mut material, published_at, 8);
            let etag = record.etag.as_str().as_bytes();
            push_big_endian(&mut material, etag.len() as u64, 2);
            append_bytes(&mut material, etag);
            append_bytes(&mut material, &record.body_sha256);
            sha256_digest(material.as_slice())
        },
    };
    let mut bytes: Vec<u8> = Vec::new();
    append_bytes(&mut bytes, "directory-".as_bytes());
    push_fixed_decimal(&mut bytes, record.received_at, 20);
    append_bytes(&mut bytes, "-".as_bytes());
    let digits = hex_bytes(&digest);
    append_bytes(&mut bytes, digits.as_slice());
    append_bytes(&mut bytes, ".cache".as_bytes());
    let mut name = String::new();
    push_ascii(&mut name, bytes.as_slice());
    assert(name@ =~= ascii_chars(cache_filename_bytes(record@)));
    proof {
        lemma_filename_recognized(record@, digest@);
    }
    name
}

/// Fixed-width decimals are digits.
proof fn lemma_fixed_decimal_digits(n: nat, width: nat)
    ensures
        fixed_decimal(n, width).len() == width,
        forall|i: int|
            0 <= i < width ==> crate::text::is_digit(#[trigger] fixed_decimal(n, width)[i]),
    decreases width,
{
    if width > 0 {
        lemma_fixed_decimal_digits(n / 10, (width - 1) as nat);
        let prefix = fixed_decimal(n / 10, (width - 1) as nat);
        assert forall|i: int| 0 <= i < width implies crate::text::is_digit(
            #[trigger] fixed_decimal(n, width)[i],
        ) by {
            if i < width - 1 {
                assert(fixed_decimal(n, width)[i] == prefix[i]);
            }
        }
    }
}

/// The name a record is stored under is one the cache recognizes.
proof fn lemma_filename_recognized(record: CachedDirectoryView, digest: Seq<u8>)
    requires
        digest.len() == 32,
        digest == cache_name_digest(record),
    ensures
        recognized_name(cache_filename_bytes(record)),
{
    lemma_name_literals();
    reveal_strlit("-");
    assert(vstd::utf8::is_ascii_chars("-"@));
    vstd::utf8::is_ascii_chars_encode_utf8("-"@);
    lemma_fixed_decimal_digits(record.received_at as nat, 20);
    crate::text::lemma_hex_lower(digest);
    let prefix = "directory-".spec_bytes();
    let suffix = ".cache".spec_bytes();
    let digits = fixed_decimal(record.received_at as nat, 20);
    let hex = hex_lower(digest);
    let name = cache_filename_bytes(record);
    assert(name.len() == 101);
    assert(name.take(10) =~= prefix);
    assert(name.skip(95) =~= suffix);
    let stem = name.subrange(10, 95);
    assert forall|i: int| 0 <= i < 20 implies crate::text::is_digit(#[trigger] stem[i]) by {
        assert(stem[i] == digits[i]);
    }
    assert(stem[20] == "-".spec_bytes()[0]);
    assert forall|i: int| 21 <= i < 85 implies is_lower_hex(#[trigger] stem[i]) by {
        let k = (i - 21) / 2;
        assert(stem[i] == hex[i - 21]);
        assert(hex[2 * k] == crate::text::hex_digit((digest[k] / 16) as nat));
        assert(hex[2 * k + 1] == crate::text::hex_digit((digest[k] % 16) as nat));
    }
}

/// The lengths of the file-name prefix and suffix.
proof fn lemma_name_literals()
    ensures
        "directory-".spec_bytes().len() == 10,
        ".cache".spec_bytes().len() == 6,
{
    reveal_strlit("directory-");
    reveal_strlit(".cache");
    assert(vstd::utf8::is_ascii_chars("directory-"@));
    assert(vstd::utf8::is_ascii_chars(".cache"@));
    vstd::utf8::is_ascii_chars_encode_utf8("directory-"@);
    vstd::utf8::is_ascii_chars_encode_utf8(".cache"@);
}

/// Whether a file name is one the cache may have written.
pub fn recognized_cache_name(value: &str) -> (recognized: bool)
    ensures
        recognized == recognized_name(value.spec_bytes()),
{
    let name = value.as_bytes();
    let prefix = "directory-".as_bytes();
    let suffix = ".cache".as_bytes();
    proof {
        lemma_name_literals();
    }
    if name.len() != prefix.len() + 85 + suffix.len() {
        return false;
    }
    let stem_start = prefix.len();
    let tail = &name[stem_start + 85..name.len()];
    if !has_prefix(name, prefix) || !bytes_equal(tail, suffix) {
        assert(tail@ =~= name@.skip(stem_start + 85));
        return false;
    }
    assert(tail@ =~= name@.skip(stem_start + 85));
    let stem = &name[stem_start..stem_start + 85];
    let ghost spec_stem = name@.subrange(prefix@.len() as int, prefix@.len() + 85int);
    assert(stem@ =~= spec_stem);
    let mut i: usize = 0;
    while i < 85
        invariant
            stem@ == spec_stem,
            spec_stem == name@.subrange(prefix@.len() as int, prefix@.len() + 85int),
            stem@.len() == 85,
            name@ == value.spec_bytes(),
            prefix@ == "directory-".spec_bytes(),
            prefix@.len() == 10,
            0 <= i <= 85,
            forall|j: int| 0 <= j < i && j < 20 ==> crate::text::is_digit(#[trigger] stem@[j]),
            i > 20 ==> stem@[20] == 45u8,
            forall|j: int| 21 <= j < i ==> is_lower_hex(#[trigger] stem@[j]),
        decreases 85 - i,
    {
        let b = stem[i];
        if i < 20 {
            if b < 48 || b > 57 {
                assert(!crate::text::is_digit(spec_stem[i as int]));
                return false;
            }
        } else if i == 20 {
            if b != 45 {
                assert(spec_stem[20] != 45u8);
                return false;
            }
        } else if !((48 <= b && b <= 57) || (97 <= b && b <= 102)) {
            assert(!is_lower_hex(spec_stem[i as int]));
            return false;
        }
        i = i + 1;
    }
    true
}

// ---------------------------------------------------------------------------
// Choosing candidates.
// ---------------------------------------------------------------------------
/// The abstract values of a list of records.
pub open spec fn record_views(records: Seq<CachedDirectory>) -> Seq<CachedDirectoryView> {
    records.map_values(|record: CachedDirectory| record@)
}

/// Whether `a` comes strictly before `b` in byte-wise lexicographic order.
pub open spec fn lex_before(a: Seq<u8>, b: Seq<u8>) -> bool
    decreases a.len(),
{
    if a.len() == 0 {
        b.len() > 0
    } else if b.len() == 0 {
        false
    } else if a[0] != b[0] {
        a[0] < b[0]
    } else {
        lex_before(a.drop_first(), b.drop_first())
    }
}

/// Whether `a` is strictly newer than `b`: received later, or in the same
/// second with a tag that sorts after `b`'s.
pub open spec fn strictly_newer(a: CachedDirectoryView, b: CachedDirectoryView) -> bool {
    a.received_at > b.received_at || (a.received_at == b.received_at && lex_before(
        b.etag,
        a.etag,
    ))
}

/// Inserts a record into a newest-first list, after every record that is not
/// strictly older than it.
pub open spec fn insert_by_age(sorted: Seq<CachedDirectoryView>, record: CachedDirectoryView) -> Seq<
    CachedDirectoryView,
>
    decreases sorted.len(),
{
    if sorted.len() == 0 {
        seq![record]
    } else if strictly_newer(record, sorted[0]) {
        seq![record] + sorted
    } else {
        seq![sorted[0]] + insert_by_age(sorted.drop_first(), record)
    }
}

/// The records ordered newest first; records of equal age keep their order.
pub open spec fn newest_first(records: Seq<CachedDirectoryView>) -> Seq<CachedDirectoryView>
    decreases records.len(),
{
    if records.len() == 0 {
        Seq::empty()
    } else {
        insert_by_age(newest_first(records.drop_last()), records.last())
    }
}

/// The candidates offered from a set of records: the four newest, newest first.
pub open spec fn newest_candidates_of(records: Seq<CachedDirectoryView>) -> Seq<
    CachedDirectoryView,
> {
    let sorted = newest_first(records);
    if MAXIMUM_CACHE_CANDIDATES <= sorted.len() {
        sorted.take(MAXIMUM_CACHE_CANDIDATES as int)
    } else {
        sorted
    }
}

/// Whether `a` comes strictly before `b` in byte-wise lexicographic order.
fn bytes_before(a: &[u8], b: &[u8]) -> (before: bool)
    ensures
        before == lex_before(a@, b@),
{
    let mut i: usize = 0;
    assert(a@.skip(0) =~= a@ && b@.skip(0) =~= b@);
    while i < a.len() && i < b.len()
        invariant
            0 <= i <= a@.len(),
            i <= b@.len(),
            lex_before(a@, b@) == lex_before(a@.skip(i as int), b@.skip(i as int)),
        decreases a@.len() - i,
    {
        if a[i] != b[i] {
            return a[i] < b[i];
        }
        assert(a@.skip(i as int).drop_first() =~= a@.skip(i + 1));
        assert(b@.skip(i as int).drop_first() =~= b@.skip(i + 1));
        i = i + 1;
    }
    i == a.len() && i < b.len()
}

/// Whether `a` is strictly newer than `b`.
fn strictly_newer_exec(a: &CachedDirectory, b: &CachedDirectory) -> (newer: bool)
    ensures
        newer == strictly_newer(a@, b@),
{
    a.received_at > b.received_at || (a.received_at == b.received_at && bytes_before(
        b.etag.as_str().as_bytes(),
        a.etag.as_str().as_bytes(),
    ))
}

/// Inserting at the first strictly older position is what `insert_by_age` does.
proof fn lemma_insert_at(sorted: Seq<CachedDirectoryView>, record: CachedDirectoryView, j: int)
    requires
        0 <= j <= sorted.len(),
        forall|i: int| 0 <= i < j ==> !strictly_newer(record, #[trigger] sorted[i]),
        j < sorted.len() ==> strictly_newer(record, sorted[j]),
    ensures
        insert_by_age(sorted, record) == sorted.insert(j, record),
    decreases sorted.len(),
{
    if sorted.len() == 0 {
        assert(seq![record] =~= sorted.insert(j, record));
    } else if j == 0 {
        assert(seq![record] + sorted =~= sorted.insert(j, record));
    } else {
        let rest = sorted.drop_first();
        assert forall|i: int| 0 <= i < j - 1 implies !strictly_newer(record, #[trigger] rest[i]) by {
            assert(rest[i] == sorted[i + 1]);
        }
        lemma_insert_at(rest, record, j - 1);
        assert(!strictly_newer(record, sorted[0]));
        assert(seq![sorted[0]] + rest.insert(j - 1, record) =~= sorted.insert(j, record));
    }
}

/// Copies a list of records.
fn clone_records(records: &Vec<CachedDirectory>) -> (copy: Vec<CachedDirectory>)
    ensures
        record_views(copy@) == record_views(records@),
{
    let mut copy: Vec<CachedDirectory> = Vec::new();
    let mut i: usize = 0;
    while i < records.len()
        invariant
            0 <= i <= records@.len(),
            record_views(copy@) == record_views(records@).take(i as int),
        decreases records@.len() - i,
    {
        let ghost before = copy@;
        copy.push(records[i].clone());
        assert(record_views(copy@) =~= record_views(before).push(records@[i as int]@));
        assert(record_views(records@).take(i + 1) =~= record_views(records@).take(i as int).push(
            records@[i as int]@,
        ));
        i = i + 1;
    }
    assert(record_views(records@).take(i as int) =~= record_views(records@));
    copy
}

/// The newest four records, newest first; records of equal age keep their
/// order.
pub fn newest_candidates(records: Vec<CachedDirectory>) -> (candidates: Vec<CachedDirectory>)
    ensures
        record_views(candidates@) == newest_candidates_of(record_views(records@)),
{
    let ghost input = record_views(records@);
    let mut rest = records;
    let mut sorted: Vec<CachedDirectory> = Vec::new();
    let ghost mut consumed: int = 0;
    assert(input.take(0) =~= Seq::<CachedDirectoryView>::empty());
    assert(input.skip(0) =~= input);
    while rest.len() > 0
        invariant
            0 <= consumed <= input.len(),
            record_views(sorted@) == newest_first(input.take(consumed)),
            record_views(rest@) == input.skip(consumed),
        decreases rest@.len(),
    {
        let ghost rest_before = rest@;
        let record = rest.remove(0);
        assert(record_views(rest_before).len() == input.len() - consumed);
        assert(consumed < input.len());
        assert(record == rest_before[0]);
        assert(record_views(rest_before)[0] == rest_before[0]@);
        assert(input.skip(consumed)[0] == input[consumed]);
        assert(record@ == input[consumed]);
        let mut j: usize = 0;
        while j < sorted.len() && !strictly_newer_exec(&record, &sorted[j])
            invariant
                0 <= j <= sorted@.len(),
                forall|i: int|
                    0 <= i < j ==> !strictly_newer(record@, #[trigger] record_views(sorted@)[i]),
            decreases sorted@.len() - j,
        {
            j = j + 1;
        }
        let ghost sorted_before = record_views(sorted@);
        proof {
            lemma_insert_at(sorted_before, record@, j as int);
            assert(input.take(consumed + 1).drop_last() =~= input.take(consumed));
            assert(input.take(consumed + 1).last() == input[consumed]);
        }
        sorted.insert(j, record);
        assert(record_views(sorted@) =~= sorted_before.insert(j as int, record@));
        assert forall|i: int| 0 <= i < rest@.len() implies #[trigger] record_views(rest@)[i]
            == input.skip(consumed + 1)[i] by {
            assert(rest@[i] == rest_before[i + 1]);
            assert(record_views(rest_before)[i + 1] == input.skip(consumed)[i + 1]);
        }
        assert(record_views(rest@) =~= input.skip(consumed + 1));
        proof {
            consumed = consumed + 1;
        }
    }
    assert(input.skip(consumed).len() == 0);
    assert(input.take(consumed) =~= input);
    sorted.truncate(MAXIMUM_CACHE_CANDIDATES);
    assert(record_views(sorted@) =~= newest_candidates_of(input));
    sorted
}

// ---------------------------------------------------------------------------
// In-memory cache.
// ---------------------------------------------------------------------------
/// A directory cache held in memory, with injectable failures.
pub struct MemoryDirectoryCache {
    records: Vec<CachedDirectory>,
    rejected_entries: usize,
    fail_load: Option<DirectoryCacheError>,
    fail_store: Option<DirectoryCacheError>,
}

/// Abstract state of a [`MemoryDirectoryCache`].
pub struct MemoryCacheView {
    pub records: Seq<CachedDirectoryView>,
    pub rejected_entries: usize,
    pub fail_load: Option<DirectoryCacheError>,
    pub fail_store: Option<DirectoryCacheError>,
}

impl View for MemoryDirectoryCache {
    type V = MemoryCacheView;

    closed spec fn view(&self) -> MemoryCacheView {
        MemoryCacheView {
            records: record_views(self.records@),
            rejected_entries: self.rejected_entries,
            fail_load: self.fail_load,
            fail_store: self.fail_store,
        }
    }
}

impl Default for MemoryDirectoryCache {
    fn default() -> (cache: MemoryDirectoryCache)
        ensures
            cache@.records.len() == 0,
            cache@.rejected_entries == 0,
            cache@.fail_load is None,
            cache@.fail_store is None,
    {
        MemoryDirectoryCache {
            records: Vec::new(),
            rejected_entries: 0,
            fail_load: None,
            fail_store: None,
        }
    }
}

impl MemoryDirectoryCache {
    /// A cache that holds the given records.
    pub fn with_records(records: Vec<CachedDirectory>) -> (cache: MemoryDirectoryCache)
        ensures
            cache@.records == record_views(records@),
            cache@.rejected_entries == 0,
            cache@.fail_load is None,
            cache@.fail_store is None,
    {
        MemoryDirectoryCache { records, rejected_entries: 0, fail_load: None, fail_store: None }
    }

    /// Sets how many rejected entries the next loads report.
    pub fn set_rejected_entries(&mut self, value: usize)
        ensures
            final(self)@ == (MemoryCacheView { rejected_entries: value, ..old(self)@ }),
    {
        self.rejected_entries = value;
    }

    /// Makes the next load fail with `error`.
    pub fn fail_next_load(&mut self, error: DirectoryCacheError)
        ensures
            final(self)@ == (MemoryCacheView { fail_load: Some(error), ..old(self)@ }),
    {
        self.fail_load = Some(error);
    }

    /// Makes the next store fail with `error`.
    pub fn fail_next_store(&mut self, error: DirectoryCacheError)
        ensures
            final(self)@ == (MemoryCacheView { fail_store: Some(error), ..old(self)@ }),
    {
        self.fail_store = Some(error);
    }

    /// The records held, newest first once anything was stored.
    pub fn records(&self) -> (records: &[CachedDirectory])
        ensures
            record_views(records@) == self@.records,
    {
        self.records.as_slice()
    }
}

impl DirectoryCache for MemoryDirectoryCache {
    open spec fn obeys_cache_spec() -> bool {
        true
    }

    open spec fn loaded(&self, before: &Self, result: Result<CacheRead, DirectoryCacheError>) -> bool {
        match before@.fail_load {
            Some(error) => result == Err::<CacheRead, DirectoryCacheError>(error) && self@ == (
            MemoryCacheView { fail_load: None, ..before@ }),
            None => result is Ok && record_views(result->Ok_0.candidates@) == newest_candidates_of(
                before@.records,
            ) && result->Ok_0.rejected_entries == before@.rejected_entries && self@ == before@,
        }
    }

    open spec fn stored(
        &self,
        before: &Self,
        record: CachedDirectoryView,
        result: Result<(), DirectoryCacheError>,
    ) -> bool {
        match before@.fail_store {
            Some(error) => result == Err::<(), DirectoryCacheError>(error) && self@ == (
            MemoryCacheView { fail_store: None, ..before@ }),
            None => if record_shape_valid(record) {
                result == Ok::<(), DirectoryCacheError>(()) && self@ == (MemoryCacheView {
                    records: newest_candidates_of(before@.records.push(record)),
                    ..before@
                })
            } else {
                result == Err::<(), DirectoryCacheError>(DirectoryCacheError::InvalidRecord)
                    && self@ == before@
            },
        }
    }

    /// Fails once if a failure was injected; otherwise offers the four
    /// newest records held, newest first.
    fn load(&mut self) -> (result: Result<CacheRead, DirectoryCacheError>)
        ensures
            match old(self)@.fail_load {
                Some(error) => result == Err::<CacheRead, DirectoryCacheError>(error)
                    && final(self)@ == (MemoryCacheView { fail_load: None, ..old(self)@ }),
                None => result is Ok && record_views(result->Ok_0.candidates@)
                    == newest_candidates_of(old(self)@.records)
                    && result->Ok_0.rejected_entries == old(self)@.rejected_entries
                    && final(self)@ == old(self)@,
            },
    {
        if let Some(error) = self.fail_load.take() {
            return Err(error);
        }
        let candidates = newest_candidates(clone_records(&self.records));
        Ok(CacheRead { candidates, rejected_entries: self.rejected_entries })
    }

    /// Fails once if a failure was injected; refuses a record that may not be
    /// stored; otherwise keeps the four newest of the held records and this one.
    fn store(&mut self, record: &CachedDirectory) -> (result: Result<(), DirectoryCacheError>)
        ensures
            match old(self)@.fail_store {
                Some(error) => result == Err::<(), DirectoryCacheError>(error) && final(self)@ == (
                MemoryCacheView { fail_store: None, ..old(self)@ }),
                None => if record_shape_valid(record@) {
                    result == Ok::<(), DirectoryCacheError>(()) && final(self)@ == (
                    MemoryCacheView {
                        records: newest_candidates_of(old(self)@.records.push(record@)),
                        ..old(self)@
                    })
                } else {
                    result == Err::<(), DirectoryCacheError>(DirectoryCacheError::InvalidRecord)
                        && final(self)@ == old(self)@
                },
            },
    {
        if let Some(error) = self.fail_store.take() {
            return Err(error);
        }
        match validate_record_shape(record) {
            Ok(()) => {},
            Err(error) => {
                return Err(error);
            },
        }
        let mut held: Vec<CachedDirectory> = Vec::new();
        std::mem::swap(&mut held, &mut self.records);
        let ghost before = record_views(held@);
        held.push(record.clone());
        assert(record_views(held@) =~= before.push(record@));
        self.records = newest_candidates(held);
        Ok(())
    }
}

// ---------------------------------------------------------------------------
// Scanning and publishing cache files.
// ---------------------------------------------------------------------------
/// What a scan of cache files has found so far.
pub struct CacheScan {
    recognized: usize,
    rejected_entries: usize,
    candidates: Vec<CachedDirectory>,
}

/// Abstract value of a [`CacheScan`].
pub struct CacheScanView {
    pub recognized: usize,
    pub rejected_entries: usize,
    pub candidates: Seq<CachedDirectoryView>,
}

impl View for CacheScan {
    type V = CacheScanView;

    closed spec fn view(&self) -> CacheScanView {
        CacheScanView {
            recognized: self.recognized,
            rejected_entries: self.rejected_entries,
            candidates: record_views(self.candidates@),
        }
    }
}

/// Whether a file's name is the one the cache gives the record it decodes to.
pub open spec fn named_for(name: Seq<char>, record: CachedDirectoryView) -> bool {
    name == ascii_chars(cache_filename_bytes(record))
}

impl CacheScan {
    /// A scan that has found nothing.
    pub fn new() -> (scan: CacheScan)
        ensures
            scan@.recognized == 0,
            scan@.rejected_entries == 0,
            scan@.candidates == Seq::<CachedDirectoryView>::empty(),
    {
        let scan = CacheScan { recognized: 0, rejected_entries: 0, candidates: Vec::new() };
        assert(scan@.candidates =~= Seq::<CachedDirectoryView>::empty());
        scan
    }

    /// Counts a directory entry: an entry whose name the cache does not use
    /// is skipped (`false`); the entries it does use are examined (`true`),
    /// and more than 64 of them is a capacity error.
    pub fn consider(&mut self, name: &str) -> (result: Result<bool, DirectoryCacheError>)
        ensures
            !recognized_name(name.spec_bytes()) ==> result == Ok::<bool, DirectoryCacheError>(false)
                && final(self)@ == old(self)@,
            recognized_name(name.spec_bytes()) && old(self)@.recognized >= MAXIMUM_CACHE_SCAN
                ==> result == Err::<bool, DirectoryCacheError>(DirectoryCacheError::Capacity),
            recognized_name(name.spec_bytes()) && old(self)@.recognized < MAXIMUM_CACHE_SCAN
                ==> result == Ok::<bool, DirectoryCacheError>(true) && final(self)@ == (
            CacheScanView { recognized: (old(self)@.recognized + 1) as usize, ..old(self)@ }),
    {
        if !recognized_cache_name(name) {
            return Ok(false);
        }
        if self.recognized >= MAXIMUM_CACHE_SCAN {
            return Err(DirectoryCacheError::Capacity);
        }
        self.recognized = self.recognized + 1;
        Ok(true)
    }

    /// Whether an examined entry is worth reading: only a regular file of at
    /// most the largest entry size; any other is counted as rejected.
    pub fn accept_file(&mut self, regular_file: bool, length: u64) -> (read: bool)
        ensures
            read == (regular_file && length <= MAXIMUM_CACHE_ENTRY_BYTES),
            read ==> final(self)@ == old(self)@,
            !read ==> final(self)@ == (CacheScanView {
                rejected_entries: if old(self)@.rejected_entries == usize::MAX {
                    usize::MAX
                } else {
                    (old(self)@.rejected_entries + 1) as usize
                },
                ..old(self)@
            }),
    {
        if !regular_file || length > MAXIMUM_CACHE_ENTRY_BYTES as u64 {
            self.rejected_entries = self.rejected_entries.saturating_add(1);
            return false;
        }
        true
    }

    /// Offers the contents of an examined entry: a record that decodes and
    /// is stored under this name becomes a candidate; anything else is
    /// counted as rejected.
    pub fn offer(&mut self, name: &str, bytes: &[u8])
        ensures
            match spec_decode_record(bytes@) {
                Some(record) => if named_for(name@, record) {
                    final(self)@ == (CacheScanView {
                        candidates: old(self)@.candidates.push(record),
                        ..old(self)@
                    })
                } else {
                    final(self)@ == (CacheScanView {
                        rejected_entries: if old(self)@.rejected_entries == usize::MAX {
                            usize::MAX
                        } else {
                            (old(self)@.rejected_entries + 1) as usize
                        },
                        ..old(self)@
                    })
                },
                None => final(self)@ == (CacheScanView {
                    rejected_entries: if old(self)@.rejected_entries == usize::MAX {
                        usize::MAX
                    } else {
                        (old(self)@.rejected_entries + 1) as usize
                    },
                    ..old(self)@
                }),
            },
    {
        match decode_record(bytes) {
            Ok(record) => {
                proof {
                    if record.published_at is Some {
                        assert(record_shape_valid(record@));
                    }
                }
                let expected = cache_filename(&record);
                if crate::transport::same_text(expected.as_str(), name) {
                    let ghost before = record_views(self.candidates@);
                    self.candidates.push(record);
                    assert(record_views(self.candidates@) =~= before.push(record@));
                } else {
                    self.rejected_entries = self.rejected_entries.saturating_add(1);
                }
            },
            Err(_) => {
                self.rejected_entries = self.rejected_entries.saturating_add(1);
            },
        }
    }

    /// What the scan offers: the four newest candidates, newest first, and
    /// how many entries it rejected.
    pub fn finish(self) -> (read: CacheRead)
        ensures
            record_views(read.candidates@) == newest_candidates_of(self@.candidates),
            read.rejected_entries == self@.rejected_entries,
    {
        CacheRead {
            candidates: newest_candidates(self.candidates),
            rejected_entries: self.rejected_entries,
        }
    }
}

/// What storing a record writes: its file name and its entry, or why it
/// cannot be stored.
pub fn prepare_store(record: &CachedDirectory) -> (result: Result<
    (String, Vec<u8>),
    DirectoryCacheError,
>)
    ensures
        match spec_encode_record(record@) {
            Ok(bytes) => result is Ok && result->Ok_0.1@ == bytes && named_for(
                result->Ok_0.0@,
                record@,
            ),
            Err(error) => result == Err::<(String, Vec<u8>), DirectoryCacheError>(error),
        },
{
    let encoded = match encode_record(record) {
        Ok(encoded) => encoded,
        Err(error) => {
            return Err(error);
        },
    };
    Ok((cache_filename(record), encoded))
}

/// Whether an entry already published under a record's name may stand for
/// it: only a regular file of at most the largest entry size whose bytes are
/// exactly the record's entry; anything else is a conflict.
pub fn existing_entry_matches(regular_file: bool, length: u64, existing: &[u8], expected: &[u8]) -> (result: Result<
    (),
    DirectoryCacheError,
>)
    ensures
        result == (if regular_file && length <= MAXIMUM_CACHE_ENTRY_BYTES && existing@ == expected@ {
            Ok::<(), DirectoryCacheError>(())
        } else {
            Err(DirectoryCacheError::Conflict)
        }),
{
    if !regular_file || length > MAXIMUM_CACHE_ENTRY_BYTES as u64 {
        return Err(DirectoryCacheError::Conflict);
    }
    if bytes_equal(existing, expected) {
        Ok(())
    } else {
        Err(DirectoryCacheError::Conflict)
    }
}

} // verus!
