//! The laws of the codec.
//!
//! The main results: a decoded stackmap is well formed; re-encoding it
//! with the layout and padding rules of [`crate::encode`] and decoding
//! again gives the same value back, alone or concatenated with another
//! instance; the version gate fails on the first byte alone; and a header
//! with nonzero reserved fields is a semantic error, not a truncation.

use vstd::bytes::spec_u16_to_le_bytes;
use vstd::bytes::spec_u32_to_le_bytes;
use vstd::bytes::spec_u64_to_le_bytes;
use vstd::bytes::lemma_auto_spec_u16_to_from_le_bytes;
use vstd::bytes::lemma_auto_spec_u32_to_from_le_bytes;
use vstd::bytes::lemma_auto_spec_u64_to_from_le_bytes;
use vstd::prelude::*;

use crate::cursor::le16_at;
use crate::cursor::le32_at;
use crate::cursor::lemma_i32_bits_roundtrip;
use crate::encode::lemma_encode_constants_len;
use crate::encode::lemma_encode_fixed_lens;
use crate::encode::lemma_encode_fun_records_len;
use crate::encode::lemma_encode_live_outs_len;
use crate::encode::lemma_encode_locations_len;
use crate::encode::lemma_encode_record_len;
use crate::encode::spec_encode_constants;
use crate::encode::spec_encode_fun_record;
use crate::encode::spec_encode_fun_records;
use crate::encode::spec_encode_header;
use crate::encode::spec_encode_live_out;
use crate::encode::spec_encode_live_outs;
use crate::encode::spec_encode_location;
use crate::encode::spec_encode_locations;
use crate::encode::spec_encode_record;
use crate::encode::spec_encode_records;
use crate::encode::spec_encode_stackmap;
use crate::encode::wf_live_out;
use crate::encode::wf_location;
use crate::encode::wf_record;
use crate::encode::wf_stackmap;
use crate::layout::SUPPORTED_VERSION;
use crate::layout::lemma_parse_constants_bounds;
use crate::layout::lemma_parse_fun_records_bounds;
use crate::layout::lemma_parse_live_outs_bounds;
use crate::layout::lemma_parse_locations_bounds;
use crate::layout::lemma_parse_records_bounds;
use crate::layout::lemma_parse_stackmap_bounds;
use crate::layout::spec_parse_all;
use crate::layout::spec_parse_constants;
use crate::layout::spec_parse_fun_record;
use crate::layout::spec_parse_fun_records;
use crate::layout::spec_parse_header;
use crate::layout::spec_parse_live_out;
use crate::layout::spec_parse_live_outs;
use crate::layout::spec_parse_location;
use crate::layout::spec_parse_locations;
use crate::layout::spec_parse_record;
use crate::layout::spec_parse_records;
use crate::layout::spec_parse_stackmap;
use crate::stackmap::Header;
use crate::stackmap::LiveOut;
use crate::stackmap::Location;
use crate::stackmap::LocationType;
use crate::stackmap::MalformedReason;
use crate::stackmap::ParsingError;
use crate::stackmap::StackMapView;
use crate::stackmap::StkMapRecordView;
use crate::stackmap::StkSizeRecord;

verus! {

/// Parsing an encoded header gives the header back.
pub proof fn lemma_parse_header_encode(h: Header, rest: Seq<u8>)
    requires
        h.version == SUPPORTED_VERSION,
        h.reserved_0 == 0,
        h.reserved_1 == 0,
    ensures
        spec_parse_header(spec_encode_header(h) + rest) == Ok::<(Header, int), ParsingError>(
            (h, 4),
        ),
{
    lemma_auto_spec_u16_to_from_le_bytes();
    let s = spec_encode_header(h) + rest;
    assert(s[0] == h.version);
    assert(s[1] == h.reserved_0);
    assert(s.subrange(2, 4) =~= spec_u16_to_le_bytes(h.reserved_1));
}

/// Parsing an encoded function record gives the record back.
pub proof fn lemma_parse_fun_record_encode(f: StkSizeRecord, rest: Seq<u8>)
    ensures
        spec_parse_fun_record(spec_encode_fun_record(f) + rest) == Ok::<
            (StkSizeRecord, int),
            ParsingError,
        >((f, 24)),
{
    lemma_auto_spec_u64_to_from_le_bytes();
    let s = spec_encode_fun_record(f) + rest;
    assert(s.subrange(0, 8) =~= spec_u64_to_le_bytes(f.function_address));
    assert(s.subrange(8, 16) =~= spec_u64_to_le_bytes(f.stack_size));
    assert(s.subrange(16, 24) =~= spec_u64_to_le_bytes(f.record_count));
}

/// Parsing an encoded function-record array gives the array back.
pub proof fn lemma_parse_fun_records_encode(fs: Seq<StkSizeRecord>, rest: Seq<u8>)
    ensures
        spec_parse_fun_records(spec_encode_fun_records(fs) + rest, fs.len() as int) == Ok::<
            (Seq<StkSizeRecord>, int),
            ParsingError,
        >((fs, 24 * fs.len() as int)),
    decreases fs.len(),
{
    lemma_encode_fixed_lens();
    if fs.len() == 0 {
        assert(spec_encode_fun_records(fs) + rest =~= rest);
        assert(fs =~= Seq::<StkSizeRecord>::empty());
    } else {
        let tail = spec_encode_fun_records(fs.skip(1)) + rest;
        lemma_parse_fun_record_encode(fs[0], tail);
        assert(spec_encode_fun_records(fs) + rest =~= spec_encode_fun_record(fs[0]) + tail);
        assert((spec_encode_fun_record(fs[0]) + tail).skip(24) =~= tail);
        lemma_parse_fun_records_encode(fs.skip(1), rest);
        assert(seq![fs[0]] + fs.skip(1) =~= fs);
    }
}

/// Parsing an encoded constant pool gives the pool back.
pub proof fn lemma_parse_constants_encode(cs: Seq<u64>, rest: Seq<u8>)
    ensures
        spec_parse_constants(spec_encode_constants(cs) + rest, cs.len() as int) == Ok::<
            (Seq<u64>, int),
            ParsingError,
        >((cs, 8 * cs.len() as int)),
    decreases cs.len(),
{
    lemma_auto_spec_u64_to_from_le_bytes();
    if cs.len() == 0 {
        assert(spec_encode_constants(cs) + rest =~= rest);
        assert(cs =~= Seq::<u64>::empty());
    } else {
        let tail = spec_encode_constants(cs.skip(1)) + rest;
        let s = spec_encode_constants(cs) + rest;
        assert(s =~= spec_u64_to_le_bytes(cs[0]) + tail);
        assert(s.subrange(0, 8) =~= spec_u64_to_le_bytes(cs[0]));
        assert(s.skip(8) =~= tail);
        lemma_parse_constants_encode(cs.skip(1), rest);
        assert(seq![cs[0]] + cs.skip(1) =~= cs);
    }
}

/// Parsing an encoded location gives the location back.
pub proof fn lemma_parse_location_encode(l: Location, rest: Seq<u8>)
    requires
        wf_location(l),
    ensures
        spec_parse_location(spec_encode_location(l) + rest) == Ok::<
            (Location, int),
            ParsingError,
        >((l, 12)),
{
    lemma_auto_spec_u16_to_from_le_bytes();
    lemma_auto_spec_u32_to_from_le_bytes();
    let s = spec_encode_location(l) + rest;
    assert(s[0] == l.loc_type.spec_code());
    assert(LocationType::spec_from_code(l.loc_type.spec_code()) == Some(l.loc_type));
    assert(s[1] == l.reserved_0);
    assert(s.subrange(2, 4) =~= spec_u16_to_le_bytes(l.loc_size));
    assert(s.subrange(4, 6) =~= spec_u16_to_le_bytes(l.dwarf_regnum));
    assert(s.subrange(6, 8) =~= spec_u16_to_le_bytes(l.reserved_1));
    assert(s.subrange(8, 12) =~= spec_u32_to_le_bytes(
        crate::cursor::spec_i32_to_bits(l.offset_or_constant),
    ));
    lemma_i32_bits_roundtrip(l.offset_or_constant);
}

/// Parsing an encoded location array gives the array back.
pub proof fn lemma_parse_locations_encode(ls: Seq<Location>, rest: Seq<u8>)
    requires
        forall|i: int| 0 <= i < ls.len() ==> wf_location(#[trigger] ls[i]),
    ensures
        spec_parse_locations(spec_encode_locations(ls) + rest, ls.len() as int) == Ok::<
            (Seq<Location>, int),
            ParsingError,
        >((ls, 12 * ls.len() as int)),
    decreases ls.len(),
{
    lemma_encode_fixed_lens();
    if ls.len() == 0 {
        assert(spec_encode_locations(ls) + rest =~= rest);
        assert(ls =~= Seq::<Location>::empty());
    } else {
        let tail = spec_encode_locations(ls.skip(1)) + rest;
        lemma_parse_location_encode(ls[0], tail);
        assert(spec_encode_locations(ls) + rest =~= spec_encode_location(ls[0]) + tail);
        assert((spec_encode_location(ls[0]) + tail).skip(12) =~= tail);
        assert(forall|i: int|
            0 <= i < ls.skip(1).len() ==> wf_location(#[trigger] ls.skip(1)[i]));
        lemma_parse_locations_encode(ls.skip(1), rest);
        assert(seq![ls[0]] + ls.skip(1) =~= ls);
    }
}

/// Parsing an encoded live-out gives the entry back.
pub proof fn lemma_parse_live_out_encode(lo: LiveOut, rest: Seq<u8>)
    requires
        wf_live_out(lo),
    ensures
        spec_parse_live_out(spec_encode_live_out(lo) + rest) == Ok::<
            (LiveOut, int),
            ParsingError,
        >((lo, 4)),
{
    lemma_auto_spec_u16_to_from_le_bytes();
    let s = spec_encode_live_out(lo) + rest;
    assert(s.subrange(0, 2) =~= spec_u16_to_le_bytes(lo.dwarf_regnum));
    assert(s[2] == lo.reserved_0);
    assert(s[3] == lo.size);
}

/// Parsing an encoded live-out array gives the array back.
pub proof fn lemma_parse_live_outs_encode(los: Seq<LiveOut>, rest: Seq<u8>)
    requires
        forall|i: int| 0 <= i < los.len() ==> wf_live_out(#[trigger] los[i]),
    ensures
        spec_parse_live_outs(spec_encode_live_outs(los) + rest, los.len() as int) == Ok::<
            (Seq<LiveOut>, int),
            ParsingError,
        >((los, 4 * los.len() as int)),
    decreases los.len(),
{
    lemma_encode_fixed_lens();
    if los.len() == 0 {
        assert(spec_encode_live_outs(los) + rest =~= rest);
        assert(los =~= Seq::<LiveOut>::empty());
    } else {
        let tail = spec_encode_live_outs(los.skip(1)) + rest;
        lemma_parse_live_out_encode(los[0], tail);
        assert(spec_encode_live_outs(los) + rest =~= spec_encode_live_out(los[0]) + tail);
        assert((spec_encode_live_out(los[0]) + tail).skip(4) =~= tail);
        assert(forall|i: int|
            0 <= i < los.skip(1).len() ==> wf_live_out(#[trigger] los.skip(1)[i]));
        lemma_parse_live_outs_encode(los.skip(1), rest);
        assert(seq![los[0]] + los.skip(1) =~= los);
    }
}

/// Parsing an encoded record, against the same counter it was encoded
/// with, gives the record, its encoded length, and the same updated
/// counter back.
#[verifier::rlimit(100)]
#[verifier::spinoff_prover]
pub proof fn lemma_parse_record_encode(r: StkMapRecordView, off: int, rest: Seq<u8>)
    requires
        wf_record(r),
        0 <= off,
    ensures
        spec_parse_record(spec_encode_record(r, off).0 + rest, off) == Ok::<
            (StkMapRecordView, int, int),
            ParsingError,
        >((r, spec_encode_record(r, off).0.len() as int, spec_encode_record(r, off).1)),
{
    lemma_auto_spec_u16_to_from_le_bytes();
    lemma_auto_spec_u32_to_from_le_bytes();
    lemma_auto_spec_u64_to_from_le_bytes();
    lemma_encode_fixed_lens();
    lemma_encode_locations_len(r.locations);
    lemma_encode_live_outs_len(r.live_outs);
    let nloc = r.locations.len() as int;
    let nlo = r.live_outs.len() as int;
    let head = spec_u64_to_le_bytes(r.patch_point_id) + spec_u32_to_le_bytes(r.instruction_offset)
        + spec_u16_to_le_bytes(r.reserved_0) + spec_u16_to_le_bytes(r.num_locations)
        + spec_encode_locations(r.locations);
    let off1 = off + 16 + 12 * nloc;
    let pad_a: Seq<u8> = if off1 % 8 != 0 {
        seq![0u8, 0u8, 0u8, 0u8]
    } else {
        Seq::<u8>::empty()
    };
    let mid = seq![0u8, 0u8] + spec_u16_to_le_bytes(r.num_live_outs) + spec_encode_live_outs(
        r.live_outs,
    );
    let off2 = off1 + 4 + 4 * nlo;
    let pad_b: Seq<u8> = if off2 % 8 != 0 {
        seq![0u8, 0u8, 0u8, 0u8]
    } else {
        Seq::<u8>::empty()
    };
    let enc = spec_encode_record(r, off).0;
    assert(enc =~= head + pad_a + mid + pad_b);
    assert(head.len() == 16 + 12 * nloc);
    assert(mid.len() == 4 + 4 * nlo);
    let s = enc + rest;
    assert(s =~= head + pad_a + mid + pad_b + rest);
    assert(s.subrange(0, 8) =~= spec_u64_to_le_bytes(r.patch_point_id));
    assert(s.subrange(8, 12) =~= spec_u32_to_le_bytes(r.instruction_offset));
    assert(s.subrange(12, 14) =~= spec_u16_to_le_bytes(r.reserved_0));
    assert(s.subrange(14, 16) =~= spec_u16_to_le_bytes(r.num_locations));
    assert(le16_at(s, 14) == r.num_locations);
    let after_locs = pad_a + mid + pad_b + rest;
    assert(s.skip(16) =~= spec_encode_locations(r.locations) + after_locs);
    lemma_parse_locations_encode(r.locations, after_locs);
    let p2 = if off1 % 8 != 0 {
        16 + 12 * nloc + 4
    } else {
        16 + 12 * nloc
    };
    assert(p2 == 16 + 12 * nloc + pad_a.len());
    assert(s.subrange(p2 + 2, p2 + 4) =~= spec_u16_to_le_bytes(r.num_live_outs));
    assert(le16_at(s, p2 + 2) == r.num_live_outs);
    let after_los = pad_b + rest;
    assert(s.skip(p2 + 4) =~= spec_encode_live_outs(r.live_outs) + after_los);
    lemma_parse_live_outs_encode(r.live_outs, after_los);
    assert(enc.len() == if off2 % 8 != 0 {
        p2 + 4 + 4 * nlo + 4
    } else {
        p2 + 4 + 4 * nlo
    });
}

/// Parsing an encoded record array, against the same starting counter,
/// gives the array and its encoded length back.
pub proof fn lemma_parse_records_encode(rs: Seq<StkMapRecordView>, off: int, rest: Seq<u8>)
    requires
        forall|i: int| 0 <= i < rs.len() ==> wf_record(#[trigger] rs[i]),
        0 <= off,
    ensures
        spec_parse_records(spec_encode_records(rs, off) + rest, rs.len() as int, off) == Ok::<
            (Seq<StkMapRecordView>, int),
            ParsingError,
        >((rs, spec_encode_records(rs, off).len() as int)),
    decreases rs.len(),
{
    if rs.len() == 0 {
        assert(spec_encode_records(rs, off) + rest =~= rest);
        assert(rs =~= Seq::<StkMapRecordView>::empty());
    } else {
        let (first, off2) = spec_encode_record(rs[0], off);
        let tail = spec_encode_records(rs.skip(1), off2) + rest;
        lemma_parse_record_encode(rs[0], off, tail);
        assert(spec_encode_records(rs, off) + rest =~= first + tail);
        assert((first + tail).skip(first.len() as int) =~= tail);
        lemma_encode_record_len(rs[0], off);
        assert(off2 >= 0);
        assert(forall|i: int| 0 <= i < rs.skip(1).len() ==> wf_record(#[trigger] rs.skip(1)[i]));
        lemma_parse_records_encode(rs.skip(1), off2, rest);
        assert(seq![rs[0]] + rs.skip(1) =~= rs);
    }
}

/// Parsing an encoded stackmap gives the stackmap and its encoded length
/// back, whatever follows it in the buffer.
#[verifier::rlimit(100)]
#[verifier::spinoff_prover]
pub proof fn lemma_parse_stackmap_encode(m: StackMapView, rest: Seq<u8>)
    requires
        wf_stackmap(m),
    ensures
        spec_parse_stackmap(spec_encode_stackmap(m) + rest) == Ok::<
            (StackMapView, int),
            ParsingError,
        >((m, spec_encode_stackmap(m).len() as int)),
{
    lemma_auto_spec_u16_to_from_le_bytes();
    lemma_auto_spec_u32_to_from_le_bytes();
    lemma_encode_fixed_lens();
    lemma_encode_fun_records_len(m.stk_size_records);
    lemma_encode_constants_len(m.large_constants);
    let nf = m.stk_size_records.len() as int;
    let nc = m.large_constants.len() as int;
    let prefix = spec_encode_header(m.header) + spec_u32_to_le_bytes(m.num_functions)
        + spec_u32_to_le_bytes(m.num_constants) + spec_u32_to_le_bytes(m.num_records)
        + spec_encode_fun_records(m.stk_size_records) + spec_encode_constants(m.large_constants);
    assert(prefix.len() == 16 + 24 * nf + 8 * nc);
    let enc_records = spec_encode_records(m.stk_map_records, prefix.len() as int);
    let enc = spec_encode_stackmap(m);
    assert(enc =~= prefix + enc_records);
    let s = enc + rest;
    assert(s =~= prefix + enc_records + rest);
    assert(s.subrange(0, 4) =~= spec_encode_header(m.header)) by {
        lemma_encode_fixed_lens();
    }
    lemma_parse_header_encode(m.header, s.skip(4));
    assert(s =~= spec_encode_header(m.header) + s.skip(4));
    assert(s.subrange(4, 8) =~= spec_u32_to_le_bytes(m.num_functions));
    assert(s.subrange(8, 12) =~= spec_u32_to_le_bytes(m.num_constants));
    assert(s.subrange(12, 16) =~= spec_u32_to_le_bytes(m.num_records));
    let after_funs = spec_encode_constants(m.large_constants) + enc_records + rest;
    assert(s.skip(16) =~= spec_encode_fun_records(m.stk_size_records) + after_funs);
    lemma_parse_fun_records_encode(m.stk_size_records, after_funs);
    let after_consts = enc_records + rest;
    assert(s.skip(16 + 24 * nf) =~= spec_encode_constants(m.large_constants) + after_consts);
    lemma_parse_constants_encode(m.large_constants, after_consts);
    let off0 = 16 + 24 * nf + 8 * nc;
    assert(s.skip(off0) =~= enc_records + rest);
    lemma_parse_records_encode(m.stk_map_records, off0, rest);
}

/// Decoding the re-encoding of a well-formed stackmap yields exactly that
/// stackmap, as the only instance in the buffer.
pub proof fn lemma_decode_encode_roundtrip(m: StackMapView)
    requires
        wf_stackmap(m),
    ensures
        spec_parse_all(spec_encode_stackmap(m)) == Ok::<Seq<StackMapView>, ParsingError>(seq![m]),
{
    let enc = spec_encode_stackmap(m);
    lemma_parse_stackmap_encode(m, Seq::<u8>::empty());
    assert(enc + Seq::<u8>::empty() =~= enc);
    assert(spec_parse_stackmap(enc) == Ok::<(StackMapView, int), ParsingError>(
        (m, enc.len() as int),
    ));
    lemma_parse_stackmap_bounds(enc);
    assert(enc.skip(enc.len() as int).len() == 0);
    assert(spec_parse_all(enc.skip(enc.len() as int)) == Ok::<Seq<StackMapView>, ParsingError>(
        Seq::empty(),
    ));
    assert(spec_parse_all(enc) == Ok::<Seq<StackMapView>, ParsingError>(
        seq![m] + Seq::<StackMapView>::empty(),
    ));
    assert(seq![m] + Seq::<StackMapView>::empty() =~= seq![m]);
}

/// A buffer formed by concatenating two encoded stackmaps decodes to
/// exactly those two instances, in order.
pub proof fn lemma_decode_encode_concat(m1: StackMapView, m2: StackMapView)
    requires
        wf_stackmap(m1),
        wf_stackmap(m2),
    ensures
        spec_parse_all(spec_encode_stackmap(m1) + spec_encode_stackmap(m2)) == Ok::<
            Seq<StackMapView>,
            ParsingError,
        >(seq![m1, m2]),
{
    let enc1 = spec_encode_stackmap(m1);
    let enc2 = spec_encode_stackmap(m2);
    lemma_parse_stackmap_encode(m1, enc2);
    lemma_parse_stackmap_bounds(enc1 + enc2);
    assert((enc1 + enc2).skip(enc1.len() as int) =~= enc2);
    lemma_decode_encode_roundtrip(m2);
    assert(seq![m1] + seq![m2] =~= seq![m1, m2]);
}

/// The version gate: a buffer whose first byte names any other revision
/// fails with the version-mismatch error — whatever the remaining bytes
/// hold, so no byte beyond the first is consulted.
pub proof fn lemma_version_gate(s: Seq<u8>)
    requires
        s.len() >= 1,
        s[0] != SUPPORTED_VERSION,
    ensures
        spec_parse_stackmap(s) == Err::<(StackMapView, int), ParsingError>(
            ParsingError::UnsupportedVersion(s[0]),
        ),
        spec_parse_all(s) == Err::<Seq<StackMapView>, ParsingError>(
            ParsingError::UnsupportedVersion(s[0]),
        ),
{
}

/// A header otherwise readable whose reserved byte or reserved half-word
/// is nonzero fails as a semantic violation, not as a truncation.
pub proof fn lemma_reserved_rejection(s: Seq<u8>)
    requires
        s.len() >= 4,
        s[0] == SUPPORTED_VERSION,
        s[1] != 0 || le16_at(s, 2) != 0,
    ensures
        spec_parse_stackmap(s) == Err::<(StackMapView, int), ParsingError>(
            ParsingError::Malformed(MalformedReason::HeaderReserved),
        ),
        spec_parse_all(s) == Err::<Seq<StackMapView>, ParsingError>(
            ParsingError::Malformed(MalformedReason::HeaderReserved),
        ),
{
}

/// Every location array the parser accepts is well formed.
pub proof fn lemma_parse_locations_wf(s: Seq<u8>, n: int)
    requires
        spec_parse_locations(s, n) is Ok,
    ensures
        forall|i: int|
            0 <= i < spec_parse_locations(s, n)->Ok_0.0.len() ==> wf_location(
                #[trigger] spec_parse_locations(s, n)->Ok_0.0[i],
            ),
    decreases n,
{
    if n > 0 {
        let (first, c) = spec_parse_location(s)->Ok_0;
        lemma_parse_locations_wf(s.skip(c), n - 1);
    }
}

/// Every live-out array the parser accepts is well formed.
pub proof fn lemma_parse_live_outs_wf(s: Seq<u8>, n: int)
    requires
        spec_parse_live_outs(s, n) is Ok,
    ensures
        forall|i: int|
            0 <= i < spec_parse_live_outs(s, n)->Ok_0.0.len() ==> wf_live_out(
                #[trigger] spec_parse_live_outs(s, n)->Ok_0.0[i],
            ),
    decreases n,
{
    if n > 0 {
        let (first, c) = spec_parse_live_out(s)->Ok_0;
        lemma_parse_live_outs_wf(s.skip(c), n - 1);
    }
}

/// Every record the parser accepts is well formed.
pub proof fn lemma_parse_record_wf(s: Seq<u8>, off: int)
    requires
        spec_parse_record(s, off) is Ok,
    ensures
        wf_record(spec_parse_record(s, off)->Ok_0.0),
{
    let num_locations = le16_at(s, 14);
    lemma_parse_locations_wf(s.skip(16), num_locations as int);
    lemma_parse_locations_bounds(s.skip(16), num_locations as int);
    let (locations, lbytes) = spec_parse_locations(s.skip(16), num_locations as int)->Ok_0;
    let off1 = off + 16 + lbytes;
    let p2 = if off1 % 8 != 0 {
        16 + lbytes + 4
    } else {
        16 + lbytes
    };
    let num_live_outs = le16_at(s, p2 + 2);
    lemma_parse_live_outs_wf(s.skip(p2 + 4), num_live_outs as int);
    lemma_parse_live_outs_bounds(s.skip(p2 + 4), num_live_outs as int);
}

/// Every record array the parser accepts is well formed.
pub proof fn lemma_parse_records_wf(s: Seq<u8>, n: int, off: int)
    requires
        spec_parse_records(s, n, off) is Ok,
    ensures
        forall|i: int|
            0 <= i < spec_parse_records(s, n, off)->Ok_0.0.len() ==> wf_record(
                #[trigger] spec_parse_records(s, n, off)->Ok_0.0[i],
            ),
    decreases n,
{
    if n > 0 {
        let (first, c, off2) = spec_parse_record(s, off)->Ok_0;
        lemma_parse_record_wf(s, off);
        lemma_parse_records_wf(s.skip(c), n - 1, off2);
    }
}

/// Every stackmap the parser accepts is well formed, so it can be
/// re-encoded and the round-trip law applies to it.
pub proof fn lemma_parse_stackmap_wf(s: Seq<u8>)
    requires
        spec_parse_stackmap(s) is Ok,
    ensures
        wf_stackmap(spec_parse_stackmap(s)->Ok_0.0),
{
    let num_functions = le32_at(s, 4);
    let num_constants = le32_at(s, 8);
    let num_records = le32_at(s, 12);
    lemma_parse_fun_records_bounds(s.skip(16), num_functions as int);
    let fbytes = spec_parse_fun_records(s.skip(16), num_functions as int)->Ok_0.1;
    lemma_parse_constants_bounds(s.skip(16 + fbytes), num_constants as int);
    let cbytes = spec_parse_constants(s.skip(16 + fbytes), num_constants as int)->Ok_0.1;
    let off0 = 16 + fbytes + cbytes;
    lemma_parse_records_bounds(s.skip(off0), num_records as int, off0);
    lemma_parse_records_wf(s.skip(off0), num_records as int, off0);
}

/// Every instance a whole-buffer decode accepts is well formed.
pub proof fn lemma_parse_all_wf(s: Seq<u8>)
    requires
        spec_parse_all(s) is Ok,
    ensures
        forall|i: int|
            0 <= i < spec_parse_all(s)->Ok_0.len() ==> wf_stackmap(
                #[trigger] spec_parse_all(s)->Ok_0[i],
            ),
    decreases s.len(),
{
    if s.len() > 0 {
        lemma_parse_stackmap_wf(s);
        lemma_parse_stackmap_bounds(s);
        let c = spec_parse_stackmap(s)->Ok_0.1;
        lemma_parse_all_wf(s.skip(c));
    }
}

/// The round trip stated for decoded values: re-encode any stackmap a
/// decode produced, with the identical layout and padding rules, and
/// decoding that buffer yields exactly the same stackmap again.
pub proof fn lemma_reencode_of_decoded(s: Seq<u8>)
    requires
        spec_parse_stackmap(s) is Ok,
    ensures
        spec_parse_all(spec_encode_stackmap(spec_parse_stackmap(s)->Ok_0.0)) == Ok::<
            Seq<StackMapView>,
            ParsingError,
        >(seq![spec_parse_stackmap(s)->Ok_0.0]),
{
    lemma_parse_stackmap_wf(s);
    lemma_decode_encode_roundtrip(spec_parse_stackmap(s)->Ok_0.0);
}

} // verus!
