//! What holds of the cache record format as a whole: an encoded record
//! decodes to itself.
use crate::directory_cache::{
    insert_by_age, lex_before, newest_candidates_of, newest_first, strictly_newer,
    MAXIMUM_CACHE_CANDIDATES, blank_at, field, first_blank_line, joined_lines, lines_scan, magic_v2, no_newline,
    record_shape_valid, spec_decode_record, spec_encode_record, spec_encode_v2, strip_cr,
    text_lines, CachedDirectory, CachedDirectoryView, MAXIMUM_CACHE_ENTRY_BYTES,
};
use crate::directory_model::{hex_decode, hex_value, is_lower_hex, is_sha256_hex};
use crate::text::{
    canonical_decimal, decimal_digits, hex_digit, hex_lower, is_digit, lemma_decimal_round_trip,
    lemma_hex_lower,
};
use vstd::prelude::*;
use vstd::string::StringSliceAdditionalSpecFns;

verus! {

/// Ten to the power `k`.
pub open spec fn ten_to(k: nat) -> nat
    decreases k,
{
    if k == 0 {
        1
    } else {
        10 * ten_to((k - 1) as nat)
    }
}

/// A number below ten to the `k` has at most `k` decimal digits.
proof fn lemma_decimal_length(n: nat, k: nat)
    requires
        k >= 1,
        n < ten_to(k),
    ensures
        decimal_digits(n).len() <= k,
    decreases k,
{
    if n >= 10 {
        assert(k >= 2) by {
            if k == 1 {
                assert(ten_to(1) == 10) by {
                    reveal_with_fuel(ten_to, 2);
                }
            }
        }
        assert(n / 10 < ten_to((k - 1) as nat));
        lemma_decimal_length(n / 10, (k - 1) as nat);
    }
}

/// Facts about a decimal rendering used by the format.
proof fn lemma_decimal_field(n: nat)
    requires
        n <= u64::MAX,
    ensures
        canonical_decimal(decimal_digits(n)) == Some(n as u64),
        no_newline(decimal_digits(n)),
        decimal_digits(n).len() >= 1,
        decimal_digits(n).last() != 13u8,
        decimal_digits(n).len() <= 20,
{
    lemma_decimal_round_trip(n);
    let d = decimal_digits(n);
    assert forall|i: int| 0 <= i < d.len() implies #[trigger] d[i] != 10u8 by {
        assert(is_digit(d[i]));
    }
    assert(is_digit(d[d.len() - 1]));
    assert(ten_to(20) == 100000000000000000000) by {
        reveal_with_fuel(ten_to, 21);
    }
    lemma_decimal_length(n, 20);
}

/// A 32-byte digest rendered in lowercase hexadecimal reads back as itself.
proof fn lemma_hex_field(d: Seq<u8>)
    requires
        d.len() == 32,
    ensures
        is_sha256_hex(hex_lower(d)),
        hex_decode(hex_lower(d)) == d,
        no_newline(hex_lower(d)),
        hex_lower(d).last() != 13u8,
{
    lemma_hex_lower(d);
    let h = hex_lower(d);
    assert forall|i: int| 0 <= i < 64 implies is_lower_hex(#[trigger] h[i]) by {
        let k = i / 2;
        assert(h[2 * k] == hex_digit((d[k] / 16) as nat));
        if i % 2 == 1 {
            assert(i == 2 * k + 1);
            assert(h[2 * k + 1] == hex_digit((d[k] % 16) as nat));
        }
    }
    assert forall|i: int| 0 <= i < h.len() implies #[trigger] h[i] != 10u8 by {
        assert(is_lower_hex(h[i]));
    }
    assert(is_lower_hex(h[63]));
    assert forall|k: int| 0 <= k < 32 implies #[trigger] hex_decode(h)[k] == d[k] by {
        assert(h[2 * k] == hex_digit((d[k] / 16) as nat));
        assert(h[2 * k + 1] == hex_digit((d[k] % 16) as nat));
        assert(hex_value(h[2 * k]) == d[k] / 16);
        assert(hex_value(h[2 * k + 1]) == d[k] % 16);
    }
    assert(hex_decode(h) =~= d);
}

/// An ASCII literal without newline encodes to as many bytes as it has
/// characters, none of them a newline.
proof fn lemma_ascii_literal(chars: Seq<char>)
    requires
        vstd::utf8::is_ascii_chars(chars),
        forall|i: int| 0 <= i < chars.len() ==> #[trigger] chars[i] != '\n',
    ensures
        vstd::utf8::encode_utf8(chars).len() == chars.len(),
        no_newline(vstd::utf8::encode_utf8(chars)),
{
    vstd::utf8::is_ascii_chars_encode_utf8(chars);
    let bytes = vstd::utf8::encode_utf8(chars);
    assert forall|i: int| 0 <= i < bytes.len() implies #[trigger] bytes[i] != 10u8 by {
        assert(chars[i] as u8 == bytes[i]);
    }
}

/// What the format needs to know of its fixed text.
proof fn lemma_format_literals()
    ensures
        magic_v2().len() == 27,
        "received-at:".spec_bytes().len() == 12,
        "published-at:".spec_bytes().len() == 13,
        "etag:".spec_bytes().len() == 5,
        "body-sha256:".spec_bytes().len() == 12,
        "body-bytes:".spec_bytes().len() == 11,
        no_newline("received-at:".spec_bytes()),
        no_newline("published-at:".spec_bytes()),
        no_newline("etag:".spec_bytes()),
        no_newline("body-sha256:".spec_bytes()),
        no_newline("body-bytes:".spec_bytes()),
        "\n".spec_bytes() == seq![10u8],
        "\n\n".spec_bytes() == seq![10u8, 10u8],
{
    reveal_strlit("ATRINIK-DIRECTORY-CACHE-V2\n");
    reveal_strlit("received-at:");
    reveal_strlit("published-at:");
    reveal_strlit("etag:");
    reveal_strlit("body-sha256:");
    reveal_strlit("body-bytes:");
    reveal_strlit("\n");
    reveal_strlit("\n\n");
    assert(vstd::utf8::is_ascii_chars("ATRINIK-DIRECTORY-CACHE-V2\n"@));
    vstd::utf8::is_ascii_chars_encode_utf8("ATRINIK-DIRECTORY-CACHE-V2\n"@);
    lemma_ascii_literal("received-at:"@);
    lemma_ascii_literal("published-at:"@);
    lemma_ascii_literal("etag:"@);
    lemma_ascii_literal("body-sha256:"@);
    lemma_ascii_literal("body-bytes:"@);
    assert(vstd::utf8::is_ascii_chars("\n"@));
    vstd::utf8::is_ascii_chars_encode_utf8("\n"@);
    assert("\n".spec_bytes() =~= seq![10u8]);
    assert(vstd::utf8::is_ascii_chars("\n\n"@));
    vstd::utf8::is_ascii_chars_encode_utf8("\n\n"@);
    assert("\n\n".spec_bytes() =~= seq![10u8, 10u8]);
}

/// The first blank line at or after `from` is at `p` when there is one at
/// `p` and none before it.
proof fn lemma_first_blank(s: Seq<u8>, from: int, p: int)
    requires
        0 <= from <= p,
        p + 1 < s.len(),
        blank_at(s, p),
        forall|i: int| from <= i < p ==> !#[trigger] blank_at(s, i),
    ensures
        first_blank_line(s, from) == Some(p),
    decreases p - from,
{
    if from < p {
        assert(!blank_at(s, from));
        lemma_first_blank(s, from + 1, p);
    }
}

/// Scanning across bytes that are no newline does not end a line.
proof fn lemma_scan_skip(s: Seq<u8>, start: int, pos: int, end: int)
    requires
        0 <= start <= pos <= end <= s.len(),
        forall|i: int| pos <= i < end ==> #[trigger] s[i] != 10u8,
    ensures
        lines_scan(s, start, pos) == lines_scan(s, start, end),
    decreases end - pos,
{
    if pos < end {
        lemma_scan_skip(s, start, pos + 1, end);
    }
}

/// The lines of `b` read the same after any prefix.
proof fn lemma_scan_shift(a: Seq<u8>, b: Seq<u8>, start: int, pos: int)
    requires
        0 <= start <= pos <= b.len(),
    ensures
        lines_scan(a + b, a.len() + start, a.len() + pos) == lines_scan(b, start, pos),
    decreases b.len() - pos,
{
    let s = a + b;
    if pos >= b.len() {
        assert(s.subrange(a.len() + start, s.len() as int) =~= b.subrange(start, b.len() as int));
    } else {
        assert(s[a.len() + pos] == b[pos]);
        if b[pos] == 10u8 {
            assert(s.subrange(a.len() + start, a.len() + pos) =~= b.subrange(start, pos));
            lemma_scan_shift(a, b, pos + 1, pos + 1);
        } else {
            lemma_scan_shift(a, b, start, pos + 1);
        }
    }
}

/// A first line without newline, a newline, then the rest.
proof fn lemma_lines_cons(l: Seq<u8>, rest: Seq<u8>)
    requires
        no_newline(l),
    ensures
        text_lines(l + seq![10u8] + rest) == seq![strip_cr(l)] + text_lines(rest),
{
    let head = l + seq![10u8];
    let s = head + rest;
    assert forall|i: int| 0 <= i < l.len() implies #[trigger] s[i] != 10u8 by {
        assert(s[i] == l[i]);
    }
    lemma_scan_skip(s, 0, 0, l.len() as int);
    assert(s[l.len() as int] == 10u8);
    assert(s.subrange(0, l.len() as int) =~= l);
    lemma_scan_shift(head, rest, 0, 0);
}

/// A single nonempty line without newline.
proof fn lemma_lines_single(l: Seq<u8>)
    requires
        no_newline(l),
        l.len() > 0,
    ensures
        text_lines(l) == seq![l],
{
    lemma_scan_skip(l, 0, 0, l.len() as int);
    assert(l.subrange(0, l.len() as int) =~= l);
}

/// A line followed by a newline and well-joined lines is well joined.
proof fn lemma_join(l: Seq<u8>, rest: Seq<u8>)
    requires
        no_newline(l),
        l.len() > 0,
        joined_lines(rest),
    ensures
        joined_lines(l + seq![10u8] + rest),
{
    let s = l + seq![10u8] + rest;
    assert(s[0] == l[0]);
    assert(s.last() == rest.last());
    assert forall|i: int| 0 <= i < s.len() - 1 implies !#[trigger] blank_at(s, i) by {
        if i < l.len() {
            assert(s[i] == l[i]);
        } else if i == l.len() {
            assert(s[i + 1] == rest[0]);
        } else {
            let j = i - l.len() - 1;
            assert(s[i] == rest[j] && s[i + 1] == rest[j + 1]);
            assert(!blank_at(rest, j));
        }
    }
}

/// A nonempty line without newline is well joined.
proof fn lemma_join_single(l: Seq<u8>)
    requires
        no_newline(l),
        l.len() > 0,
    ensures
        joined_lines(l),
{
    assert(l[l.len() - 1] != 10u8);
    assert forall|i: int| 0 <= i < l.len() - 1 implies !#[trigger] blank_at(l, i) by {
        assert(l[i] != 10u8);
    }
}

/// A name followed by a value is a line with that field.
proof fn lemma_named_line(name: Seq<u8>, value: Seq<u8>)
    requires
        no_newline(name),
        no_newline(value),
        name.len() > 0,
        value.len() > 0,
        value.last() != 13u8,
    ensures
        no_newline(name + value),
        (name + value).len() > 0,
        strip_cr(name + value) == name + value,
        field(name + value, name) == Some(value),
{
    let line = name + value;
    assert forall|i: int| 0 <= i < line.len() implies #[trigger] line[i] != 10u8 by {
        if i < name.len() {
            assert(line[i] == name[i]);
        } else {
            assert(line[i] == value[i - name.len()]);
        }
    }
    assert(line.last() == value.last());
    assert(line.take(name.len() as int) =~= name);
    assert(line.skip(name.len() as int) =~= value);
}

/// The five metadata lines of a record's entry.
spec fn record_lines(r: CachedDirectoryView) -> Seq<Seq<u8>> {
    seq![
        "received-at:".spec_bytes() + decimal_digits(r.received_at as nat),
        "published-at:".spec_bytes() + decimal_digits(r.published_at->Some_0 as nat),
        "etag:".spec_bytes() + r.etag,
        "body-sha256:".spec_bytes() + hex_lower(r.body_sha256),
        "body-bytes:".spec_bytes() + decimal_digits(r.body.len()),
    ]
}

/// The metadata of a record's entry: its lines joined by newlines.
spec fn encoded_metadata(r: CachedDirectoryView) -> Seq<u8> {
    let l = record_lines(r);
    l[0] + seq![10u8] + (l[1] + seq![10u8] + (l[2] + seq![10u8] + (l[3] + seq![10u8] + l[4])))
}

/// An entry is its version line, its metadata, a blank line and the body.
#[verifier::rlimit(50)]
proof fn lemma_encode_shape(r: CachedDirectoryView)
    ensures
        spec_encode_v2(r) == magic_v2() + (encoded_metadata(r) + (seq![10u8, 10u8] + r.body)),
{
    lemma_format_literals();
    assert(spec_encode_v2(r) =~= magic_v2() + (encoded_metadata(r) + (seq![10u8, 10u8] + r.body)));
}

/// The metadata of a storable record splits into its five lines, holds no
/// blank line, and is short.
proof fn lemma_metadata_lines(record: CachedDirectory)
    requires
        record_shape_valid(record@),
    ensures
        text_lines(encoded_metadata(record@)) == record_lines(record@),
        joined_lines(encoded_metadata(record@)),
        encoded_metadata(record@).len() <= 320,
        forall|k: int| 0 <= k < 5 ==> no_newline(#[trigger] record_lines(record@)[k]),
{
    let r = record@;
    lemma_format_literals();
    let n1 = "received-at:".spec_bytes();
    let n2 = "published-at:".spec_bytes();
    let n3 = "etag:".spec_bytes();
    let n4 = "body-sha256:".spec_bytes();
    let n5 = "body-bytes:".spec_bytes();
    let v1 = decimal_digits(r.received_at as nat);
    let v2 = decimal_digits(r.published_at->Some_0 as nat);
    let v3 = r.etag;
    let v4 = hex_lower(r.body_sha256);
    let v5 = decimal_digits(r.body.len());
    lemma_decimal_field(r.received_at as nat);
    lemma_decimal_field(r.published_at->Some_0 as nat);
    lemma_decimal_field(r.body.len());
    lemma_hex_field(r.body_sha256);
    lemma_hex_lower(r.body_sha256);
    assert forall|i: int| 0 <= i < v3.len() implies #[trigger] v3[i] != 10u8 by {
        if 0 < i < v3.len() - 1 {
            assert(33 <= v3[i]);
        }
    }
    assert(v3.last() == 34u8);
    lemma_named_line(n1, v1);
    lemma_named_line(n2, v2);
    lemma_named_line(n3, v3);
    lemma_named_line(n4, v4);
    lemma_named_line(n5, v5);
    let l = record_lines(r);
    let j4 = l[3] + seq![10u8] + l[4];
    let j3 = l[2] + seq![10u8] + j4;
    let j2 = l[1] + seq![10u8] + j3;
    lemma_join_single(l[4]);
    lemma_join(l[3], l[4]);
    lemma_join(l[2], j4);
    lemma_join(l[1], j3);
    lemma_join(l[0], j2);
    lemma_lines_single(l[4]);
    lemma_lines_cons(l[3], l[4]);
    lemma_lines_cons(l[2], j4);
    lemma_lines_cons(l[1], j3);
    lemma_lines_cons(l[0], j2);
    assert(text_lines(encoded_metadata(r)) =~= l);
}

/// A record that may be stored encodes to an entry that decodes back to it.
pub proof fn law_record_codec_round_trip(record: CachedDirectory)
    requires
        record_shape_valid(record@),
    ensures
        spec_encode_record(record@) is Ok,
        spec_decode_record(spec_encode_record(record@)->Ok_0) == Some(record@),
{
    let r = record@;
    lemma_format_literals();
    lemma_encode_shape(r);
    lemma_metadata_lines(record);
    lemma_decimal_field(r.received_at as nat);
    lemma_decimal_field(r.published_at->Some_0 as nat);
    lemma_decimal_field(r.body.len());
    lemma_hex_field(r.body_sha256);
    let l = record_lines(r);
    lemma_named_line("received-at:".spec_bytes(), decimal_digits(r.received_at as nat));
    lemma_named_line("published-at:".spec_bytes(), decimal_digits(r.published_at->Some_0 as nat));
    lemma_named_line("etag:".spec_bytes(), r.etag);
    lemma_named_line("body-sha256:".spec_bytes(), hex_lower(r.body_sha256));
    lemma_named_line("body-bytes:".spec_bytes(), decimal_digits(r.body.len()));
    let m = magic_v2();
    let meta = encoded_metadata(r);
    let e = spec_encode_v2(r);
    assert(e.len() <= MAXIMUM_CACHE_ENTRY_BYTES);
    assert(spec_encode_record(r) == Ok::<Seq<u8>, crate::directory_cache::DirectoryCacheError>(e));
    let p: int = m.len() as int + meta.len() as int;
    assert forall|i: int| m.len() <= i < p implies !#[trigger] blank_at(e, i) by {
        assert(e[i] == meta[i - m.len()]);
        if i < p - 1 {
            assert(e[i + 1] == meta[i + 1 - m.len()]);
            assert(!blank_at(meta, i - m.len()));
        }
    }
    assert(e[p] == 10u8 && e[p + 1] == 10u8);
    lemma_first_blank(e, m.len() as int, p);
    assert(e.subrange(m.len() as int, p) =~= meta);
    assert(e.subrange(p + 2, e.len() as int) =~= r.body);
    assert(e.take(m.len() as int) =~= m);
}

/// Byte-wise lexicographic order is asymmetric.
proof fn lemma_lex_asymmetric(a: Seq<u8>, b: Seq<u8>)
    requires
        lex_before(a, b),
    ensures
        !lex_before(b, a),
    decreases a.len(),
{
    if a.len() > 0 && b.len() > 0 && a[0] == b[0] {
        lemma_lex_asymmetric(a.drop_first(), b.drop_first());
    }
}

/// Byte-wise lexicographic order is transitive.
proof fn lemma_lex_transitive(a: Seq<u8>, b: Seq<u8>, c: Seq<u8>)
    requires
        lex_before(a, b),
        lex_before(b, c),
    ensures
        lex_before(a, c),
    decreases a.len(),
{
    if a.len() > 0 && b.len() > 0 && c.len() > 0 && a[0] == b[0] && b[0] == c[0] {
        lemma_lex_transitive(a.drop_first(), b.drop_first(), c.drop_first());
    }
}

/// Being strictly newer is asymmetric and transitive.
proof fn lemma_newer_order(a: CachedDirectoryView, b: CachedDirectoryView, c: CachedDirectoryView)
    ensures
        strictly_newer(a, b) ==> !strictly_newer(b, a),
        strictly_newer(a, b) && strictly_newer(b, c) ==> strictly_newer(a, c),
{
    if strictly_newer(a, b) && a.received_at == b.received_at {
        lemma_lex_asymmetric(b.etag, a.etag);
    }
    if strictly_newer(a, b) && strictly_newer(b, c) && a.received_at == b.received_at
        && b.received_at == c.received_at {
        lemma_lex_transitive(c.etag, b.etag, a.etag);
    }
}

/// Records ordered newest first: no record is strictly newer than one
/// before it.
pub open spec fn newest_first_ordered(records: Seq<CachedDirectoryView>) -> bool {
    forall|i: int, j: int|
        0 <= i < j < records.len() ==> !strictly_newer(#[trigger] records[j], #[trigger] records[i])
}

/// Inserting by age puts the record at some position of the list.
proof fn lemma_insert_position(sorted: Seq<CachedDirectoryView>, record: CachedDirectoryView) -> (j:
    int)
    ensures
        0 <= j <= sorted.len(),
        insert_by_age(sorted, record) == sorted.insert(j, record),
        forall|i: int| 0 <= i < j ==> !strictly_newer(record, #[trigger] sorted[i]),
        j < sorted.len() ==> strictly_newer(record, sorted[j]),
    decreases sorted.len(),
{
    if sorted.len() == 0 {
        assert(seq![record] =~= sorted.insert(0, record));
        0
    } else if strictly_newer(record, sorted[0]) {
        assert(seq![record] + sorted =~= sorted.insert(0, record));
        0
    } else {
        let rest = sorted.drop_first();
        let k = lemma_insert_position(rest, record);
        assert(seq![sorted[0]] + rest.insert(k, record) =~= sorted.insert(k + 1, record));
        assert forall|i: int| 0 <= i < k + 1 implies !strictly_newer(record, #[trigger] sorted[i]) by {
            if i > 0 {
                assert(sorted[i] == rest[i - 1]);
            }
        }
        if k + 1 < sorted.len() {
            assert(sorted[k + 1] == rest[k]);
        }
        k + 1
    }
}

/// Inserting by age keeps a newest-first list newest first.
proof fn lemma_insert_keeps_order(sorted: Seq<CachedDirectoryView>, record: CachedDirectoryView)
    requires
        newest_first_ordered(sorted),
    ensures
        newest_first_ordered(insert_by_age(sorted, record)),
{
    let j = lemma_insert_position(sorted, record);
    let result = sorted.insert(j, record);
    assert forall|a: int, b: int| 0 <= a < b < result.len() implies !strictly_newer(
        #[trigger] result[b],
        #[trigger] result[a],
    ) by {
        if b < j {
            assert(result[a] == sorted[a] && result[b] == sorted[b]);
        } else if b == j {
            assert(result[a] == sorted[a] && result[b] == record);
        } else if a == j {
            assert(result[b] == sorted[b - 1] && result[a] == record);
            assert(j < sorted.len());
            lemma_newer_order(record, sorted[j], sorted[j]);
            if b - 1 > j {
                assert(!strictly_newer(sorted[b - 1], sorted[j]));
            }
            lemma_newer_order(sorted[b - 1], record, sorted[j]);
        } else if a < j {
            assert(result[a] == sorted[a] && result[b] == sorted[b - 1]);
        } else {
            assert(result[a] == sorted[a - 1] && result[b] == sorted[b - 1]);
        }
    }
}

/// Ordering newest first keeps every record, once for each time it occurs.
proof fn lemma_newest_first_permutes(records: Seq<CachedDirectoryView>)
    ensures
        newest_first(records).to_multiset() == records.to_multiset(),
        newest_first(records).len() == records.len(),
        newest_first_ordered(newest_first(records)),
    decreases records.len(),
{
    broadcast use vstd::seq_lib::group_to_multiset_ensures;

    if records.len() > 0 {
        let rest = records.drop_last();
        lemma_newest_first_permutes(rest);
        let sorted = newest_first(rest);
        let j = lemma_insert_position(sorted, records.last());
        lemma_insert_keeps_order(sorted, records.last());
        assert(records =~= rest.push(records.last()));
    }
}

/// The cache offers the newest records newest first: the candidates are the
/// first four (or all, if fewer) of an ordering of every record held in
/// which no record is strictly newer than one before it.
pub proof fn law_candidates_are_the_newest_records(records: Seq<CachedDirectoryView>)
    ensures
        newest_first(records).to_multiset() == records.to_multiset(),
        newest_first_ordered(newest_first(records)),
        newest_candidates_of(records) == newest_first(records).take(
            if records.len() < MAXIMUM_CACHE_CANDIDATES {
                records.len() as int
            } else {
                MAXIMUM_CACHE_CANDIDATES as int
            },
        ),
{
    lemma_newest_first_permutes(records);
    if records.len() < MAXIMUM_CACHE_CANDIDATES {
        assert(newest_first(records).take(records.len() as int) =~= newest_first(records));
    }
}

} // verus!
