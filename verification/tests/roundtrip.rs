use llvm_stackmaps::stackmap::{
    Header, LiveOut, Location, LocationType, StackMap, StkMapRecord, StkSizeRecord,
};

fn small_map() -> StackMap {
    StackMap {
        header: Header { version: 3, reserved_0: 0, reserved_1: 0 },
        num_functions: 2,
        num_constants: 3,
        num_records: 2,
        stk_size_records: vec![
            StkSizeRecord { function_address: 0x1000, stack_size: 48, record_count: 1 },
            StkSizeRecord { function_address: 0x2000, stack_size: 16, record_count: 1 },
        ],
        large_constants: vec![10, 20, 30],
        stk_map_records: vec![
            StkMapRecord {
                patch_point_id: 1,
                instruction_offset: 4,
                reserved_0: 0,
                num_locations: 1,
                locations: vec![Location {
                    loc_type: LocationType::Indirect,
                    reserved_0: 0,
                    loc_size: 8,
                    dwarf_regnum: 6,
                    reserved_1: 0,
                    offset_or_constant: -16,
                }],
                num_live_outs: 1,
                live_outs: vec![LiveOut { dwarf_regnum: 7, reserved_0: 0, size: 8 }],
            },
            StkMapRecord {
                patch_point_id: 2,
                instruction_offset: 12,
                reserved_0: 0,
                num_locations: 2,
                locations: vec![
                    Location {
                        loc_type: LocationType::Register,
                        reserved_0: 0,
                        loc_size: 4,
                        dwarf_regnum: 0,
                        reserved_1: 0,
                        offset_or_constant: 0,
                    },
                    Location {
                        loc_type: LocationType::ConstIndex,
                        reserved_0: 0,
                        loc_size: 8,
                        dwarf_regnum: 0,
                        reserved_1: 0,
                        offset_or_constant: 2,
                    },
                ],
                num_live_outs: 0,
                live_outs: vec![],
            },
        ],
    }
}

fn other_map() -> StackMap {
    StackMap {
        header: Header { version: 3, reserved_0: 0, reserved_1: 0 },
        num_functions: 1,
        num_constants: 0,
        num_records: 1,
        stk_size_records: vec![StkSizeRecord {
            function_address: 0xabcd,
            stack_size: 8,
            record_count: 1,
        }],
        large_constants: vec![],
        stk_map_records: vec![StkMapRecord {
            patch_point_id: 9,
            instruction_offset: 0,
            reserved_0: 0,
            num_locations: 0,
            locations: vec![],
            num_live_outs: 0,
            live_outs: vec![],
        }],
    }
}

#[test]
fn decode_of_encode_is_identity() {
    let original = small_map();
    let mut bytes = original.encode();
    let decoded = StackMap::new(&mut bytes).expect("re-encoded stackmap must decode");
    assert_eq!(decoded.len(), 1);
    assert!(decoded[0] == original);
}

#[test]
fn encode_of_decode_reproduces_the_bytes() {
    // A buffer whose padding bytes are zero comes back byte for byte.
    let original = small_map();
    let bytes = original.encode();
    let mut copy = bytes.clone();
    let decoded = StackMap::new(&mut copy).expect("must decode");
    let recoded = decoded[0].encode();
    assert_eq!(recoded, bytes);
}

#[test]
fn concatenated_instances_decode_to_both() {
    let first = small_map();
    let second = other_map();
    let mut buf = first.encode();
    buf.extend_from_slice(&second.encode());
    let decoded = StackMap::new(&mut buf).expect("concatenation must decode");
    assert_eq!(decoded.len(), 2);
    assert!(decoded[0] == first);
    assert!(decoded[1] == second);

    // Each instance decoded alone is the same value.
    let mut alone = first.encode();
    let alone_decoded = StackMap::new(&mut alone).expect("must decode");
    assert!(alone_decoded[0] == decoded[0]);
    let mut alone2 = second.encode();
    let alone2_decoded = StackMap::new(&mut alone2).expect("must decode");
    assert!(alone2_decoded[0] == decoded[1]);
}

#[test]
fn encoding_pads_records_as_the_decoder_expects() {
    // One location (odd) forces the first conditional pad; zero
    // live-outs then leave the uncorrected counter on a boundary, so no
    // trailing pad: 16 + 24 + 16 + 12 + 4 + 4 = 76 bytes in all.
    let map = StackMap {
        header: Header { version: 3, reserved_0: 0, reserved_1: 0 },
        num_functions: 1,
        num_constants: 0,
        num_records: 1,
        stk_size_records: vec![StkSizeRecord {
            function_address: 0,
            stack_size: 0,
            record_count: 1,
        }],
        large_constants: vec![],
        stk_map_records: vec![StkMapRecord {
            patch_point_id: 5,
            instruction_offset: 0,
            reserved_0: 0,
            num_locations: 1,
            locations: vec![Location {
                loc_type: LocationType::Direct,
                reserved_0: 0,
                loc_size: 8,
                dwarf_regnum: 6,
                reserved_1: 0,
                offset_or_constant: 8,
            }],
            num_live_outs: 0,
            live_outs: vec![],
        }],
    };
    let bytes = map.encode();
    assert_eq!(bytes.len(), 76);
    let mut copy = bytes;
    let decoded = StackMap::new(&mut copy).expect("must decode");
    assert!(decoded[0] == map);
}
