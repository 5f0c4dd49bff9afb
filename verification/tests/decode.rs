use llvm_stackmaps::stackmap::{
    Location, LocationType, MalformedReason, ParsingError, StackMap, StkMapRecord,
};

fn push_u16(buf: &mut Vec<u8>, v: u16) {
    buf.extend_from_slice(&v.to_le_bytes());
}

fn push_u32(buf: &mut Vec<u8>, v: u32) {
    buf.extend_from_slice(&v.to_le_bytes());
}

fn push_u64(buf: &mut Vec<u8>, v: u64) {
    buf.extend_from_slice(&v.to_le_bytes());
}

fn push_i32(buf: &mut Vec<u8>, v: i32) {
    buf.extend_from_slice(&v.to_le_bytes());
}

/// Header (version 3, zero reserved) plus the three counts.
fn push_prefix(buf: &mut Vec<u8>, nf: u32, nc: u32, nr: u32) {
    buf.push(3);
    buf.push(0);
    push_u16(buf, 0);
    push_u32(buf, nf);
    push_u32(buf, nc);
    push_u32(buf, nr);
}

fn push_location(buf: &mut Vec<u8>, ty: u8, size: u16, reg: u16, off: i32) {
    buf.push(ty);
    buf.push(0);
    push_u16(buf, size);
    push_u16(buf, reg);
    push_u16(buf, 0);
    push_i32(buf, off);
}

/// One function, one constant, one record with one location and one
/// live-out; 92 bytes in all, both conditional paddings taken.
fn sample_buffer() -> Vec<u8> {
    let mut buf = Vec::new();
    push_prefix(&mut buf, 1, 1, 1);
    // Function record.
    push_u64(&mut buf, 0x4000);
    push_u64(&mut buf, 32);
    push_u64(&mut buf, 1);
    // Constant pool.
    push_u64(&mut buf, 0xdead_beef);
    // Record head: id, instruction offset, reserved, num_locations.
    push_u64(&mut buf, 42);
    push_u32(&mut buf, 8);
    push_u16(&mut buf, 0);
    push_u16(&mut buf, 1);
    push_location(&mut buf, 1, 8, 11, -4);
    // Counter is 48 + 28 = 76, not a multiple of 8: conditional padding.
    push_u32(&mut buf, 0);
    // Fixed 2-byte padding, then the live-out count and one live-out.
    push_u16(&mut buf, 0);
    push_u16(&mut buf, 1);
    push_u16(&mut buf, 5);
    buf.push(0);
    buf.push(8);
    // Counter is 76 + 8 = 84, not a multiple of 8: trailing padding.
    push_u32(&mut buf, 0);
    assert_eq!(buf.len(), 92);
    buf
}

#[test]
fn decodes_single_stackmap() {
    let mut buf = sample_buffer();
    let maps = StackMap::new(&mut buf).expect("valid buffer must decode");
    assert_eq!(maps.len(), 1);
    let m = &maps[0];
    assert_eq!(m.header.version, 3);
    assert_eq!(m.num_functions, 1);
    assert_eq!(m.num_constants, 1);
    assert_eq!(m.num_records, 1);
    assert_eq!(m.stk_size_records.len(), 1);
    assert_eq!(m.stk_size_records[0].function_address, 0x4000);
    assert_eq!(m.stk_size_records[0].stack_size, 32);
    assert_eq!(m.stk_size_records[0].record_count, 1);
    assert_eq!(m.large_constants, vec![0xdead_beef]);
    assert_eq!(m.stk_map_records.len(), 1);
    let r = &m.stk_map_records[0];
    assert_eq!(r.patch_point_id, 42);
    assert_eq!(r.instruction_offset, 8);
    assert_eq!(r.num_locations, 1);
    assert_eq!(r.locations.len(), 1);
    assert_eq!(r.locations[0].loc_type, LocationType::Register);
    assert_eq!(r.locations[0].loc_size, 8);
    assert_eq!(r.locations[0].dwarf_regnum, 11);
    assert_eq!(r.locations[0].offset_or_constant, -4);
    assert_eq!(r.num_live_outs, 1);
    assert_eq!(r.live_outs.len(), 1);
    assert_eq!(r.live_outs[0].dwarf_regnum, 5);
    assert_eq!(r.live_outs[0].size, 8);
}

#[test]
fn empty_buffer_decodes_to_no_instances() {
    let mut buf = Vec::new();
    let maps = StackMap::new(&mut buf).expect("empty buffer is no error");
    assert_eq!(maps.len(), 0);
}

#[test]
fn version_gate_rejects_other_versions() {
    for version in [0u8, 1, 2, 4, 9, 255] {
        let mut buf = sample_buffer();
        buf[0] = version;
        assert_eq!(
            StackMap::new(&mut buf),
            Err(ParsingError::UnsupportedVersion(version))
        );
    }
}

#[test]
fn version_gate_fails_before_any_other_byte_matters() {
    // The wrong version is rejected even when everything after the first
    // byte is garbage or missing.
    let mut buf = vec![2u8];
    assert_eq!(StackMap::new(&mut buf), Err(ParsingError::UnsupportedVersion(2)));
    let mut buf = vec![4u8, 0xff, 0xff, 0xff, 0xff];
    assert_eq!(StackMap::new(&mut buf), Err(ParsingError::UnsupportedVersion(4)));
}

#[test]
fn nonzero_reserved_byte_is_semantic_not_truncation() {
    let mut buf = sample_buffer();
    buf[1] = 1;
    assert_eq!(
        StackMap::new(&mut buf),
        Err(ParsingError::Malformed(MalformedReason::HeaderReserved))
    );
}

#[test]
fn nonzero_reserved_halfword_is_semantic_not_truncation() {
    let mut buf = sample_buffer();
    buf[3] = 0x80;
    assert_eq!(
        StackMap::new(&mut buf),
        Err(ParsingError::Malformed(MalformedReason::HeaderReserved))
    );
}

#[test]
fn truncation_at_every_boundary() {
    // Cutting a valid buffer anywhere (but to emptiness) gives the
    // truncation error: never a panic, never another error kind.
    let full = sample_buffer();
    for cut in 1..full.len() {
        let mut buf = full[..cut].to_vec();
        assert_eq!(
            StackMap::new(&mut buf),
            Err(ParsingError::Truncated),
            "cut at {cut}"
        );
    }
}

#[test]
fn unknown_location_type_is_rejected_with_the_byte() {
    for bad in [0u8, 6, 7, 200] {
        let mut buf = sample_buffer();
        // The location's type byte sits right after the 16-byte record
        // head, which starts at offset 48.
        buf[64] = bad;
        assert_eq!(
            StackMap::new(&mut buf),
            Err(ParsingError::Malformed(MalformedReason::InvalidLocationType(bad)))
        );
    }
}

#[test]
fn nonzero_live_out_reserved_byte_is_rejected() {
    let mut buf = sample_buffer();
    // The live-out entry starts at offset 84; its reserved byte is at 86.
    buf[86] = 1;
    assert_eq!(
        StackMap::new(&mut buf),
        Err(ParsingError::Malformed(MalformedReason::LiveOutReserved))
    );
}

/// One function, zero constants, two records. The first record's single
/// location leaves the running counter off an 8-byte boundary, so the
/// decoder must consume the 4-byte conditional pad without counting it,
/// and judge the trailing pad by the uncorrected counter — which lands
/// back on a boundary, so no trailing pad. The second record then pads
/// at its tail. Only a buffer of exactly these 100 bytes decodes.
fn alignment_buffer() -> Vec<u8> {
    let mut buf = Vec::new();
    push_prefix(&mut buf, 1, 0, 2);
    push_u64(&mut buf, 0x1000);
    push_u64(&mut buf, 8);
    push_u64(&mut buf, 2);
    // Counter starts at 40. First record: head and one location bring it
    // to 68 (not a multiple of 8): 4 pad bytes follow, uncounted.
    push_u64(&mut buf, 1);
    push_u32(&mut buf, 0);
    push_u16(&mut buf, 0);
    push_u16(&mut buf, 1);
    push_location(&mut buf, 4, 8, 0, 77);
    push_u32(&mut buf, 0); // conditional pad, consumed but not counted
    push_u16(&mut buf, 0); // fixed pad
    push_u16(&mut buf, 0); // zero live-outs
    // Counter is 68 + 4 = 72, a multiple of 8: no trailing pad here.
    // Second record: head only, counter 72 + 16 + 4 = 92: trailing pad.
    push_u64(&mut buf, 2);
    push_u32(&mut buf, 4);
    push_u16(&mut buf, 0);
    push_u16(&mut buf, 0);
    push_u16(&mut buf, 0); // fixed pad
    push_u16(&mut buf, 0); // zero live-outs
    push_u32(&mut buf, 0); // trailing conditional pad, counted
    assert_eq!(buf.len(), 100);
    buf
}

#[test]
fn alignment_pads_follow_the_uncorrected_counter() {
    let mut buf = alignment_buffer();
    let maps = StackMap::new(&mut buf).expect("aligned buffer must decode");
    assert_eq!(maps.len(), 1);
    let m = &maps[0];
    assert_eq!(m.num_records, 2);
    assert_eq!(m.stk_map_records[0].patch_point_id, 1);
    assert_eq!(m.stk_map_records[0].locations.len(), 1);
    assert_eq!(m.stk_map_records[0].locations[0].loc_type, LocationType::Constant);
    assert_eq!(m.stk_map_records[1].patch_point_id, 2);
    assert_eq!(m.stk_map_records[1].num_locations, 0);

    // The decoder consumed exactly 100 bytes: one byte more cannot make
    // a further instance, one byte fewer truncates the second record.
    let mut longer = alignment_buffer();
    longer.push(0);
    assert!(StackMap::new(&mut longer).is_err());
    let mut shorter = alignment_buffer();
    shorter.pop();
    assert_eq!(StackMap::new(&mut shorter), Err(ParsingError::Truncated));
}

#[test]
fn defaults_are_zeroed() {
    let l = Location::default();
    assert_eq!(l.loc_type, LocationType::Invalid);
    assert_eq!(l.loc_size, 0);
    assert_eq!(LocationType::default(), LocationType::Invalid);
    let r = StkMapRecord::default();
    assert_eq!(r.num_locations, 0);
    assert!(r.locations.is_empty());
    let m = StackMap::default();
    assert_eq!(m.num_functions, 0);
    assert!(m.stk_map_records.is_empty());
}

#[test]
fn concatenation_of_decodable_buffers_yields_both_instances() {
    // Two hand-built buffers, each decoding to one instance; their
    // concatenation decodes to exactly those two instances in order.
    let first = StackMap::new(&mut sample_buffer()).expect("must decode");
    let second = StackMap::new(&mut alignment_buffer()).expect("must decode");
    let mut both = sample_buffer();
    both.extend_from_slice(&alignment_buffer());
    let decoded = StackMap::new(&mut both).expect("concatenation must decode");
    assert_eq!(decoded.len(), 2);
    assert!(decoded[0] == first[0]);
    assert!(decoded[1] == second[0]);
}

#[test]
fn decode_failure_returns_no_partial_result() {
    // Two instances; the second is cut short. The whole call fails, the
    // valid first instance is not returned.
    let mut buf = sample_buffer();
    buf.extend_from_slice(&sample_buffer()[..40]);
    assert_eq!(StackMap::new(&mut buf), Err(ParsingError::Truncated));
}
