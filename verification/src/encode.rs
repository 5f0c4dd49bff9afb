//! Re-encoding a decoded stackmap, byte for byte.
//!
//! The specification functions here produce exactly the layout and padding
//! that [`crate::layout`] parses: padding bytes are written as zero, and
//! the running offset counter is threaded through the records under the
//! same asymmetric rule the parser uses. [`crate::proofs`] proves that
//! parsing such an encoding gives the encoded value back.

use vstd::bytes::spec_u16_to_le_bytes;
use vstd::bytes::spec_u32_to_le_bytes;
use vstd::bytes::spec_u64_to_le_bytes;
use vstd::bytes::u16_to_le_bytes;
use vstd::bytes::u32_to_le_bytes;
use vstd::bytes::u64_to_le_bytes;
use vstd::bytes::lemma_auto_spec_u16_to_from_le_bytes;
use vstd::bytes::lemma_auto_spec_u32_to_from_le_bytes;
use vstd::bytes::lemma_auto_spec_u64_to_from_le_bytes;
use vstd::prelude::*;

use crate::cursor::i32_to_bits;
use crate::cursor::i64_to_bits;
use crate::cursor::spec_i32_to_bits;
use crate::cursor::spec_i64_to_bits;
use crate::layout::SUPPORTED_VERSION;
use crate::stackmap::Header;
use crate::stackmap::LiveOut;
use crate::stackmap::Location;
use crate::stackmap::LocationType;
use crate::stackmap::StackMap;
use crate::stackmap::StackMapView;
use crate::stackmap::StkMapRecord;
use crate::stackmap::StkMapRecordView;
use crate::stackmap::StkSizeRecord;
use crate::stackmap::records_view;

verus! {

/// A location the encoder can write and the parser will accept: every
/// kind but `Invalid`, whose wire byte the parser rejects.
pub open spec fn wf_location(l: Location) -> bool {
    l.loc_type != LocationType::Invalid
}

/// A live-out the parser will accept back: its reserved byte is zero.
pub open spec fn wf_live_out(lo: LiveOut) -> bool {
    lo.reserved_0 == 0
}

/// A record whose counts match its lists and whose entries are themselves
/// well formed. Every record the decoder produces satisfies this.
pub open spec fn wf_record(r: StkMapRecordView) -> bool {
    &&& r.num_locations == r.locations.len()
    &&& r.num_live_outs == r.live_outs.len()
    &&& forall|i: int| 0 <= i < r.locations.len() ==> wf_location(#[trigger] r.locations[i])
    &&& forall|i: int| 0 <= i < r.live_outs.len() ==> wf_live_out(#[trigger] r.live_outs[i])
}

/// A stackmap the encoder can write and the parser will accept back:
/// supported version, zero reserved fields, counts that match the arrays,
/// well-formed records. Every stackmap the decoder produces satisfies
/// this.
pub open spec fn wf_stackmap(m: StackMapView) -> bool {
    &&& m.header.version == SUPPORTED_VERSION
    &&& m.header.reserved_0 == 0
    &&& m.header.reserved_1 == 0
    &&& m.num_functions == m.stk_size_records.len()
    &&& m.num_constants == m.large_constants.len()
    &&& m.num_records == m.stk_map_records.len()
    &&& forall|i: int|
        0 <= i < m.stk_map_records.len() ==> wf_record(#[trigger] m.stk_map_records[i])
}

/// The 4 bytes of the header.
pub open spec fn spec_encode_header(h: Header) -> Seq<u8> {
    seq![h.version, h.reserved_0] + spec_u16_to_le_bytes(h.reserved_1)
}

/// The 24 bytes of one function record.
pub open spec fn spec_encode_fun_record(f: StkSizeRecord) -> Seq<u8> {
    spec_u64_to_le_bytes(f.function_address) + spec_u64_to_le_bytes(f.stack_size)
        + spec_u64_to_le_bytes(f.record_count)
}

/// The function-record array, in order.
pub open spec fn spec_encode_fun_records(fs: Seq<StkSizeRecord>) -> Seq<u8>
    decreases fs.len(),
{
    if fs.len() == 0 {
        Seq::empty()
    } else {
        spec_encode_fun_record(fs[0]) + spec_encode_fun_records(fs.skip(1))
    }
}

/// The constant pool, in order.
pub open spec fn spec_encode_constants(cs: Seq<u64>) -> Seq<u8>
    decreases cs.len(),
{
    if cs.len() == 0 {
        Seq::empty()
    } else {
        spec_u64_to_le_bytes(cs[0]) + spec_encode_constants(cs.skip(1))
    }
}

/// The 12 bytes of one location.
pub open spec fn spec_encode_location(l: Location) -> Seq<u8> {
    seq![l.loc_type.spec_code(), l.reserved_0] + spec_u16_to_le_bytes(l.loc_size)
        + spec_u16_to_le_bytes(l.dwarf_regnum) + spec_u16_to_le_bytes(l.reserved_1)
        + spec_u32_to_le_bytes(spec_i32_to_bits(l.offset_or_constant))
}

/// The location array of one record, in order.
pub open spec fn spec_encode_locations(ls: Seq<Location>) -> Seq<u8>
    decreases ls.len(),
{
    if ls.len() == 0 {
        Seq::empty()
    } else {
        spec_encode_location(ls[0]) + spec_encode_locations(ls.skip(1))
    }
}

/// The 4 bytes of one live-out entry.
pub open spec fn spec_encode_live_out(lo: LiveOut) -> Seq<u8> {
    spec_u16_to_le_bytes(lo.dwarf_regnum) + seq![lo.reserved_0, lo.size]
}

/// The live-out array of one record, in order.
pub open spec fn spec_encode_live_outs(los: Seq<LiveOut>) -> Seq<u8>
    decreases los.len(),
{
    if los.len() == 0 {
        Seq::empty()
    } else {
        spec_encode_live_out(los[0]) + spec_encode_live_outs(los.skip(1))
    }
}

/// One patch-point record against the running offset counter `off`:
/// the bytes written and the updated counter, under the same asymmetric
/// padding rule the parser applies (the first conditional padding is
/// written but not counted, the second written and counted).
pub open spec fn spec_encode_record(r: StkMapRecordView, off: int) -> (Seq<u8>, int) {
    let head = spec_u64_to_le_bytes(r.patch_point_id) + spec_u32_to_le_bytes(r.instruction_offset)
        + spec_u16_to_le_bytes(r.reserved_0) + spec_u16_to_le_bytes(r.num_locations)
        + spec_encode_locations(r.locations);
    let off1 = off + 16 + 12 * r.locations.len();
    let pad_a = if off1 % 8 != 0 {
        seq![0u8, 0u8, 0u8, 0u8]
    } else {
        Seq::<u8>::empty()
    };
    let mid = seq![0u8, 0u8] + spec_u16_to_le_bytes(r.num_live_outs) + spec_encode_live_outs(
        r.live_outs,
    );
    let off2 = off1 + 4 + 4 * r.live_outs.len();
    if off2 % 8 != 0 {
        (head + pad_a + mid + seq![0u8, 0u8, 0u8, 0u8], off2 + 4)
    } else {
        (head + pad_a + mid, off2)
    }
}

/// The record array, threading the offset counter from record to record.
pub open spec fn spec_encode_records(rs: Seq<StkMapRecordView>, off: int) -> Seq<u8>
    decreases rs.len(),
{
    if rs.len() == 0 {
        Seq::empty()
    } else {
        let (first, off2) = spec_encode_record(rs[0], off);
        first + spec_encode_records(rs.skip(1), off2)
    }
}

/// One whole stackmap instance: header, counts, the fixed arrays, then
/// the records against the counter, which starts at the bytes written so
/// far.
pub open spec fn spec_encode_stackmap(m: StackMapView) -> Seq<u8> {
    let prefix = spec_encode_header(m.header) + spec_u32_to_le_bytes(m.num_functions)
        + spec_u32_to_le_bytes(m.num_constants) + spec_u32_to_le_bytes(m.num_records)
        + spec_encode_fun_records(m.stk_size_records) + spec_encode_constants(m.large_constants);
    prefix + spec_encode_records(m.stk_map_records, prefix.len() as int)
}

/// Every fixed-size piece has its fixed length.
pub proof fn lemma_encode_fixed_lens()
    ensures
        forall|h: Header| (#[trigger] spec_encode_header(h)).len() == 4,
        forall|f: StkSizeRecord| (#[trigger] spec_encode_fun_record(f)).len() == 24,
        forall|l: Location| (#[trigger] spec_encode_location(l)).len() == 12,
        forall|lo: LiveOut| (#[trigger] spec_encode_live_out(lo)).len() == 4,
{
    lemma_auto_spec_u16_to_from_le_bytes();
    lemma_auto_spec_u32_to_from_le_bytes();
    lemma_auto_spec_u64_to_from_le_bytes();
}

/// The function-record array encodes to 24 bytes per entry.
pub proof fn lemma_encode_fun_records_len(fs: Seq<StkSizeRecord>)
    ensures
        spec_encode_fun_records(fs).len() == 24 * fs.len(),
    decreases fs.len(),
{
    lemma_encode_fixed_lens();
    if fs.len() > 0 {
        lemma_encode_fun_records_len(fs.skip(1));
    }
}

/// The constant pool encodes to 8 bytes per entry.
pub proof fn lemma_encode_constants_len(cs: Seq<u64>)
    ensures
        spec_encode_constants(cs).len() == 8 * cs.len(),
    decreases cs.len(),
{
    lemma_auto_spec_u64_to_from_le_bytes();
    if cs.len() > 0 {
        lemma_encode_constants_len(cs.skip(1));
    }
}

/// The location array encodes to 12 bytes per entry.
pub proof fn lemma_encode_locations_len(ls: Seq<Location>)
    ensures
        spec_encode_locations(ls).len() == 12 * ls.len(),
    decreases ls.len(),
{
    lemma_encode_fixed_lens();
    if ls.len() > 0 {
        lemma_encode_locations_len(ls.skip(1));
    }
}

/// The live-out array encodes to 4 bytes per entry.
pub proof fn lemma_encode_live_outs_len(los: Seq<LiveOut>)
    ensures
        spec_encode_live_outs(los).len() == 4 * los.len(),
    decreases los.len(),
{
    lemma_encode_fixed_lens();
    if los.len() > 0 {
        lemma_encode_live_outs_len(los.skip(1));
    }
}

/// Encoding one more function record appends that record's bytes.
pub proof fn lemma_encode_fun_records_snoc(fs: Seq<StkSizeRecord>, i: int)
    requires
        0 <= i < fs.len(),
    ensures
        spec_encode_fun_records(fs.take(i + 1)) == spec_encode_fun_records(fs.take(i))
            + spec_encode_fun_record(fs[i]),
    decreases i,
{
    if i == 0 {
        assert(fs.take(1) =~= seq![fs[0]]);
        assert(fs.take(1).skip(1) =~= Seq::<StkSizeRecord>::empty());
        assert(fs.take(0) =~= Seq::<StkSizeRecord>::empty());
        assert(spec_encode_fun_records(fs.take(0)) + spec_encode_fun_record(fs[0])
            =~= spec_encode_fun_record(fs[0]));
        assert(spec_encode_fun_record(fs[0]) + Seq::<u8>::empty() =~= spec_encode_fun_record(
            fs[0],
        ));
    } else {
        lemma_encode_fun_records_snoc(fs.skip(1), i - 1);
        assert(fs.take(i + 1).skip(1) =~= fs.skip(1).take(i));
        assert(fs.take(i).skip(1) =~= fs.skip(1).take(i - 1));
        assert(fs.take(i + 1)[0] == fs[0]);
        assert(fs.take(i)[0] == fs[0]);
        assert(fs.skip(1)[i - 1] == fs[i]);
        assert(spec_encode_fun_record(fs[0]) + (spec_encode_fun_records(fs.skip(1).take(i - 1))
            + spec_encode_fun_record(fs[i])) =~= (spec_encode_fun_record(fs[0])
            + spec_encode_fun_records(fs.skip(1).take(i - 1))) + spec_encode_fun_record(fs[i]));
    }
}

/// Encoding one more constant appends that constant's bytes.
pub proof fn lemma_encode_constants_snoc(cs: Seq<u64>, i: int)
    requires
        0 <= i < cs.len(),
    ensures
        spec_encode_constants(cs.take(i + 1)) == spec_encode_constants(cs.take(i))
            + spec_u64_to_le_bytes(cs[i]),
    decreases i,
{
    if i == 0 {
        assert(cs.take(1) =~= seq![cs[0]]);
        assert(cs.take(1).skip(1) =~= Seq::<u64>::empty());
        assert(cs.take(0) =~= Seq::<u64>::empty());
        assert(spec_encode_constants(cs.take(0)) + spec_u64_to_le_bytes(cs[0])
            =~= spec_u64_to_le_bytes(cs[0]));
        assert(spec_u64_to_le_bytes(cs[0]) + Seq::<u8>::empty() =~= spec_u64_to_le_bytes(cs[0]));
    } else {
        lemma_encode_constants_snoc(cs.skip(1), i - 1);
        assert(cs.take(i + 1).skip(1) =~= cs.skip(1).take(i));
        assert(cs.take(i).skip(1) =~= cs.skip(1).take(i - 1));
        assert(cs.take(i + 1)[0] == cs[0]);
        assert(cs.take(i)[0] == cs[0]);
        assert(cs.skip(1)[i - 1] == cs[i]);
        assert(spec_u64_to_le_bytes(cs[0]) + (spec_encode_constants(cs.skip(1).take(i - 1))
            + spec_u64_to_le_bytes(cs[i])) =~= (spec_u64_to_le_bytes(cs[0])
            + spec_encode_constants(cs.skip(1).take(i - 1))) + spec_u64_to_le_bytes(cs[i]));
    }
}

/// Encoding one more location appends that location's bytes.
pub proof fn lemma_encode_locations_snoc(ls: Seq<Location>, i: int)
    requires
        0 <= i < ls.len(),
    ensures
        spec_encode_locations(ls.take(i + 1)) == spec_encode_locations(ls.take(i))
            + spec_encode_location(ls[i]),
    decreases i,
{
    if i == 0 {
        assert(ls.take(1) =~= seq![ls[0]]);
        assert(ls.take(1).skip(1) =~= Seq::<Location>::empty());
        assert(ls.take(0) =~= Seq::<Location>::empty());
        assert(spec_encode_locations(ls.take(0)) + spec_encode_location(ls[0])
            =~= spec_encode_location(ls[0]));
        assert(spec_encode_location(ls[0]) + Seq::<u8>::empty() =~= spec_encode_location(ls[0]));
    } else {
        lemma_encode_locations_snoc(ls.skip(1), i - 1);
        assert(ls.take(i + 1).skip(1) =~= ls.skip(1).take(i));
        assert(ls.take(i).skip(1) =~= ls.skip(1).take(i - 1));
        assert(ls.take(i + 1)[0] == ls[0]);
        assert(ls.take(i)[0] == ls[0]);
        assert(ls.skip(1)[i - 1] == ls[i]);
        assert(spec_encode_location(ls[0]) + (spec_encode_locations(ls.skip(1).take(i - 1))
            + spec_encode_location(ls[i])) =~= (spec_encode_location(ls[0])
            + spec_encode_locations(ls.skip(1).take(i - 1))) + spec_encode_location(ls[i]));
    }
}

/// Encoding one more live-out appends that entry's bytes.
pub proof fn lemma_encode_live_outs_snoc(los: Seq<LiveOut>, i: int)
    requires
        0 <= i < los.len(),
    ensures
        spec_encode_live_outs(los.take(i + 1)) == spec_encode_live_outs(los.take(i))
            + spec_encode_live_out(los[i]),
    decreases i,
{
    if i == 0 {
        assert(los.take(1) =~= seq![los[0]]);
        assert(los.take(1).skip(1) =~= Seq::<LiveOut>::empty());
        assert(los.take(0) =~= Seq::<LiveOut>::empty());
        assert(spec_encode_live_outs(los.take(0)) + spec_encode_live_out(los[0])
            =~= spec_encode_live_out(los[0]));
        assert(spec_encode_live_out(los[0]) + Seq::<u8>::empty() =~= spec_encode_live_out(
            los[0],
        ));
    } else {
        lemma_encode_live_outs_snoc(los.skip(1), i - 1);
        assert(los.take(i + 1).skip(1) =~= los.skip(1).take(i));
        assert(los.take(i).skip(1) =~= los.skip(1).take(i - 1));
        assert(los.take(i + 1)[0] == los[0]);
        assert(los.take(i)[0] == los[0]);
        assert(los.skip(1)[i - 1] == los[i]);
        assert(spec_encode_live_out(los[0]) + (spec_encode_live_outs(los.skip(1).take(i - 1))
            + spec_encode_live_out(los[i])) =~= (spec_encode_live_out(los[0])
            + spec_encode_live_outs(los.skip(1).take(i - 1))) + spec_encode_live_out(los[i]));
    }
}

/// The offset counter after encoding a whole record array that started at
/// `off`.
pub open spec fn spec_records_off(rs: Seq<StkMapRecordView>, off: int) -> int
    decreases rs.len(),
{
    if rs.len() == 0 {
        off
    } else {
        spec_records_off(rs.skip(1), spec_encode_record(rs[0], off).1)
    }
}

/// Encoding one more record appends that record's bytes, against the
/// counter the earlier records left behind.
pub proof fn lemma_encode_records_snoc(rs: Seq<StkMapRecordView>, off: int, i: int)
    requires
        0 <= i < rs.len(),
    ensures
        spec_encode_records(rs.take(i + 1), off) == spec_encode_records(rs.take(i), off)
            + spec_encode_record(rs[i], spec_records_off(rs.take(i), off)).0,
        spec_records_off(rs.take(i + 1), off) == spec_encode_record(
            rs[i],
            spec_records_off(rs.take(i), off),
        ).1,
    decreases i,
{
    if i == 0 {
        assert(rs.take(1) =~= seq![rs[0]]);
        assert(rs.take(1)[0] == rs[0]);
        assert(rs.take(1).skip(1) =~= Seq::<StkMapRecordView>::empty());
        assert(rs.take(0) =~= Seq::<StkMapRecordView>::empty());
        let enc0 = spec_encode_record(rs[0], off).0;
        assert(spec_encode_records(rs.take(0), off) + enc0 =~= enc0);
        assert(enc0 + Seq::<u8>::empty() =~= enc0);
        assert(spec_encode_records(rs.take(1), off) == enc0 + spec_encode_records(
            Seq::<StkMapRecordView>::empty(),
            spec_encode_record(rs[0], off).1,
        ));
        assert(spec_records_off(rs.take(1), off) == spec_records_off(
            Seq::<StkMapRecordView>::empty(),
            spec_encode_record(rs[0], off).1,
        ));
    } else {
        let off1 = spec_encode_record(rs[0], off).1;
        lemma_encode_records_snoc(rs.skip(1), off1, i - 1);
        assert(rs.take(i + 1).skip(1) =~= rs.skip(1).take(i));
        assert(rs.take(i).skip(1) =~= rs.skip(1).take(i - 1));
        assert(rs.take(i + 1)[0] == rs[0]);
        assert(rs.take(i)[0] == rs[0]);
        assert(rs.skip(1)[i - 1] == rs[i]);
        let enc0 = spec_encode_record(rs[0], off).0;
        assert(spec_encode_records(rs.take(i + 1), off) == enc0 + spec_encode_records(
            rs.skip(1).take(i),
            off1,
        ));
        assert(spec_encode_records(rs.take(i), off) == enc0 + spec_encode_records(
            rs.skip(1).take(i - 1),
            off1,
        ));
        assert(spec_records_off(rs.take(i + 1), off) == spec_records_off(
            rs.skip(1).take(i),
            off1,
        ));
        assert(spec_records_off(rs.take(i), off) == spec_records_off(
            rs.skip(1).take(i - 1),
            off1,
        ));
        let prev = spec_encode_records(rs.skip(1).take(i - 1), off1);
        let last = spec_encode_record(rs[i], spec_records_off(rs.skip(1).take(i - 1), off1)).0;
        assert(enc0 + (prev + last) =~= (enc0 + prev) + last);
    }
}

/// One record encodes to its head and locations, the paddings actually
/// taken, and the live-out block; at least 20 bytes.
pub proof fn lemma_encode_record_len(r: StkMapRecordView, off: int)
    ensures
        20 <= spec_encode_record(r, off).0.len(),
        spec_encode_record(r, off).0.len() <= 28 + 12 * r.locations.len() + 4
            * r.live_outs.len(),
{
    lemma_encode_fixed_lens();
    lemma_encode_locations_len(r.locations);
    lemma_encode_live_outs_len(r.live_outs);
    lemma_auto_spec_u16_to_from_le_bytes();
    lemma_auto_spec_u32_to_from_le_bytes();
    lemma_auto_spec_u64_to_from_le_bytes();
    let head = spec_u64_to_le_bytes(r.patch_point_id) + spec_u32_to_le_bytes(
        r.instruction_offset,
    ) + spec_u16_to_le_bytes(r.reserved_0) + spec_u16_to_le_bytes(r.num_locations)
        + spec_encode_locations(r.locations);
    assert(head.len() == 16 + 12 * r.locations.len());
    let mid = seq![0u8, 0u8] + spec_u16_to_le_bytes(r.num_live_outs) + spec_encode_live_outs(
        r.live_outs,
    );
    assert(mid.len() == 4 + 4 * r.live_outs.len());
}

/// Append the encoding of the function-record array to `out`.
fn encode_fun_records(fs: &Vec<StkSizeRecord>, out: &mut Vec<u8>)
    ensures
        final(out)@ == old(out)@ + spec_encode_fun_records(fs@),
{
    let ghost base = out@;
    let mut i: usize = 0;
    while i < fs.len()
        invariant
            i <= fs@.len(),
            out@ == base + spec_encode_fun_records(fs@.take(i as int)),
        decreases fs@.len() - i,
    {
        let f = fs[i];
        let mut b = u64_to_le_bytes(f.function_address);
        out.append(&mut b);
        let mut b = u64_to_le_bytes(f.stack_size);
        out.append(&mut b);
        let mut b = u64_to_le_bytes(f.record_count);
        out.append(&mut b);
        proof {
            lemma_encode_fun_records_snoc(fs@, i as int);
            assert(out@ =~= base + spec_encode_fun_records(fs@.take(i as int + 1)));
        }
        i = i + 1;
    }
    proof {
        assert(fs@.take(fs@.len() as int) =~= fs@);
        assert(base + spec_encode_fun_records(fs@.take(0)) =~= base);
    }
}

/// Append the encoding of the constant pool to `out`.
fn encode_constants(cs: &Vec<u64>, out: &mut Vec<u8>)
    ensures
        final(out)@ == old(out)@ + spec_encode_constants(cs@),
{
    let ghost base = out@;
    let mut i: usize = 0;
    while i < cs.len()
        invariant
            i <= cs@.len(),
            out@ == base + spec_encode_constants(cs@.take(i as int)),
        decreases cs@.len() - i,
    {
        let mut b = u64_to_le_bytes(cs[i]);
        out.append(&mut b);
        proof {
            lemma_encode_constants_snoc(cs@, i as int);
            assert(out@ =~= base + spec_encode_constants(cs@.take(i as int + 1)));
        }
        i = i + 1;
    }
    proof {
        assert(cs@.take(cs@.len() as int) =~= cs@);
        assert(base + spec_encode_constants(cs@.take(0)) =~= base);
    }
}

/// Append the encoding of one record's location array to `out`.
fn encode_locations(ls: &Vec<Location>, out: &mut Vec<u8>)
    ensures
        final(out)@ == old(out)@ + spec_encode_locations(ls@),
{
    let ghost base = out@;
    let mut i: usize = 0;
    while i < ls.len()
        invariant
            i <= ls@.len(),
            out@ == base + spec_encode_locations(ls@.take(i as int)),
        decreases ls@.len() - i,
    {
        let l = ls[i];
        out.push(l.loc_type.code());
        out.push(l.reserved_0);
        let mut b = u16_to_le_bytes(l.loc_size);
        out.append(&mut b);
        let mut b = u16_to_le_bytes(l.dwarf_regnum);
        out.append(&mut b);
        let mut b = u16_to_le_bytes(l.reserved_1);
        out.append(&mut b);
        let mut b = u32_to_le_bytes(i32_to_bits(l.offset_or_constant));
        out.append(&mut b);
        proof {
            lemma_encode_locations_snoc(ls@, i as int);
            assert(out@ =~= base + spec_encode_locations(ls@.take(i as int + 1)));
        }
        i = i + 1;
    }
    proof {
        assert(ls@.take(ls@.len() as int) =~= ls@);
        assert(base + spec_encode_locations(ls@.take(0)) =~= base);
    }
}

/// Append the encoding of one record's live-out array to `out`.
fn encode_live_outs(los: &Vec<LiveOut>, out: &mut Vec<u8>)
    ensures
        final(out)@ == old(out)@ + spec_encode_live_outs(los@),
{
    let ghost base = out@;
    let mut i: usize = 0;
    while i < los.len()
        invariant
            i <= los@.len(),
            out@ == base + spec_encode_live_outs(los@.take(i as int)),
        decreases los@.len() - i,
    {
        let lo = los[i];
        let mut b = u16_to_le_bytes(lo.dwarf_regnum);
        out.append(&mut b);
        out.push(lo.reserved_0);
        out.push(lo.size);
        proof {
            lemma_encode_live_outs_snoc(los@, i as int);
            assert(out@ =~= base + spec_encode_live_outs(los@.take(i as int + 1)));
        }
        i = i + 1;
    }
    proof {
        assert(los@.take(los@.len() as int) =~= los@);
        assert(base + spec_encode_live_outs(los@.take(0)) =~= base);
    }
}

impl StkMapRecord {
    /// Append this record's encoding to `out`, against the running offset
    /// counter `*off`, under the same asymmetric padding rule the decoder
    /// applies; padding bytes are written as zero.
    #[verifier::loop_isolation(false)]
    #[verifier::rlimit(100)]
    #[verifier::spinoff_prover]
    pub fn encode(&self, off: &mut usize, out: &mut Vec<u8>)
        requires
            wf_record(self@),
            *old(off) <= old(out)@.len(),
        ensures
            final(out)@ == old(out)@ + spec_encode_record(self@, *old(off) as int).0,
            *final(off) == spec_encode_record(self@, *old(off) as int).1,
            *final(off) <= final(out)@.len(),
    {
        proof {
            lemma_encode_fixed_lens();
            lemma_encode_locations_len(self@.locations);
            lemma_encode_live_outs_len(self@.live_outs);
            lemma_auto_spec_u16_to_from_le_bytes();
            lemma_auto_spec_u32_to_from_le_bytes();
            lemma_auto_spec_u64_to_from_le_bytes();
        }
        let ghost base = out@;
        let ghost off0 = *off as int;
        let len0 = out.len();
        let mut b = u64_to_le_bytes(self.patch_point_id);
        out.append(&mut b);
        let mut b = u32_to_le_bytes(self.instruction_offset);
        out.append(&mut b);
        let mut b = u16_to_le_bytes(self.reserved_0);
        out.append(&mut b);
        let mut b = u16_to_le_bytes(self.num_locations);
        out.append(&mut b);
        encode_locations(&self.locations, out);
        let ghost head = spec_u64_to_le_bytes(self.patch_point_id) + spec_u32_to_le_bytes(
            self.instruction_offset,
        ) + spec_u16_to_le_bytes(self.reserved_0) + spec_u16_to_le_bytes(self.num_locations)
            + spec_encode_locations(self@.locations);
        proof {
            assert(out@ =~= base + head);
        }
        let len1 = out.len();
        *off = *off + (len1 - len0);
        proof {
            assert(*off == off0 + 16 + 12 * self@.locations.len());
        }
        let ghost pad_a: Seq<u8> = if *off as int % 8 != 0 {
            seq![0u8, 0u8, 0u8, 0u8]
        } else {
            Seq::<u8>::empty()
        };
        if *off % 8 != 0 {
            out.push(0);
            out.push(0);
            out.push(0);
            out.push(0);
        }
        proof {
            assert(out@ =~= base + head + pad_a);
        }
        let len2 = out.len();
        out.push(0);
        out.push(0);
        let mut b = u16_to_le_bytes(self.num_live_outs);
        out.append(&mut b);
        encode_live_outs(&self.live_outs, out);
        let ghost mid = seq![0u8, 0u8] + spec_u16_to_le_bytes(self.num_live_outs)
            + spec_encode_live_outs(self@.live_outs);
        proof {
            assert(out@ =~= base + head + pad_a + mid);
        }
        let len3 = out.len();
        *off = *off + (len3 - len2);
        if *off % 8 != 0 {
            out.push(0);
            out.push(0);
            out.push(0);
            out.push(0);
            let total = out.len();
            *off = *off + 4;
            proof {
                assert(out@ =~= base + head + pad_a + mid + seq![0u8, 0u8, 0u8, 0u8]);
                assert(out@ =~= base + spec_encode_record(self@, off0).0);
            }
        } else {
            proof {
                assert(out@ =~= base + spec_encode_record(self@, off0).0);
            }
        }
    }
}

impl StackMap {
    /// Re-encode this stackmap with the identical layout and padding rules
    /// the decoder applies. Decoding the result gives this stackmap back
    /// (`crate::proofs::lemma_decode_encode_roundtrip`).
    #[verifier::loop_isolation(false)]
    #[verifier::rlimit(100)]
    #[verifier::spinoff_prover]
    pub fn encode(&self) -> (out: Vec<u8>)
        requires
            wf_stackmap(self@),
        ensures
            out@ == spec_encode_stackmap(self@),
    {
        proof {
            lemma_encode_fixed_lens();
            lemma_encode_fun_records_len(self@.stk_size_records);
            lemma_encode_constants_len(self@.large_constants);
            lemma_auto_spec_u32_to_from_le_bytes();
        }
        let mut out: Vec<u8> = Vec::new();
        out.push(self.header.version);
        out.push(self.header.reserved_0);
        let mut b = u16_to_le_bytes(self.header.reserved_1);
        out.append(&mut b);
        let mut b = u32_to_le_bytes(self.num_functions);
        out.append(&mut b);
        let mut b = u32_to_le_bytes(self.num_constants);
        out.append(&mut b);
        let mut b = u32_to_le_bytes(self.num_records);
        out.append(&mut b);
        encode_fun_records(&self.stk_size_records, &mut out);
        encode_constants(&self.large_constants, &mut out);
        let ghost prefix = spec_encode_header(self@.header) + spec_u32_to_le_bytes(
            self@.num_functions,
        ) + spec_u32_to_le_bytes(self@.num_constants) + spec_u32_to_le_bytes(self@.num_records)
            + spec_encode_fun_records(self@.stk_size_records) + spec_encode_constants(
            self@.large_constants,
        );
        proof {
            assert(out@ =~= prefix);
        }
        let mut off: usize = out.len();
        let rs = &self.stk_map_records;
        let ghost rsv = crate::stackmap::records_view(rs@);
        let ghost off0 = off as int;
        let mut i: usize = 0;
        while i < rs.len()
            invariant
                i <= rs@.len(),
                out@ == prefix + spec_encode_records(rsv.take(i as int), off0),
                off as int == spec_records_off(rsv.take(i as int), off0),
                off <= out@.len(),
            decreases rs@.len() - i,
        {
            proof {
                assert(rsv.take(i as int + 1)[i as int] == rs@[i as int]@);
                assert(wf_record(rsv[i as int]));
            }
            let ghost off_before = off as int;
            rs[i].encode(&mut off, &mut out);
            proof {
                lemma_encode_records_snoc(rsv, off0, i as int);
                assert(rsv[i as int] == rs@[i as int]@);
                assert(out@ =~= prefix + spec_encode_records(rsv.take(i as int + 1), off0));
            }
            i = i + 1;
        }
        proof {
            assert(rsv.take(rsv.len() as int) =~= rsv);
            assert(out@ =~= spec_encode_stackmap(self@));
        }
        out
    }
}

} // verus!
