use llvm_stackmaps::stackmap::{
    Header, LiveOut, Location, LocationType, StackMap, StkMapRecord, StkSizeRecord,
};

#[test]
fn const_index_resolves_zero_based_into_the_pool() {
    let map = StackMap {
        header: Header { version: 3, reserved_0: 0, reserved_1: 0 },
        num_functions: 1,
        num_constants: 3,
        num_records: 1,
        stk_size_records: vec![StkSizeRecord {
            function_address: 4096,
            stack_size: 16,
            record_count: 1,
        }],
        large_constants: vec![10, 20, 30],
        stk_map_records: vec![StkMapRecord {
            patch_point_id: 7,
            instruction_offset: 4,
            reserved_0: 0,
            num_locations: 1,
            locations: vec![Location {
                loc_type: LocationType::ConstIndex,
                reserved_0: 0,
                loc_size: 8,
                dwarf_regnum: 0,
                reserved_1: 0,
                offset_or_constant: 2,
            }],
            num_live_outs: 0,
            live_outs: vec![],
        }],
    };
    let text = map.pretty_print();
    // Index 2 is the third element of [10, 20, 30]: it resolves to 30.
    assert!(text.contains("ConstantIndex #2 (30)"));
    let expected = "LLVM StackMap Version: 3\n\
                    Num Functions: 1\n\
                    \x20 Function address: 4096, stack size: 16, callsite record count: 1\n\
                    Num Constants: 3\n\
                    \x20 #1: 10\n\
                    \x20 #2: 20\n\
                    \x20 #3: 30\n\
                    Num Records: 1\n\
                    \x20 Record ID: 7, instruction offset: 4\n\
                    \x20   1 locations:\n\
                    \x20     #1: ConstantIndex #2 (30), size: 8\n\
                    \x20   0 live-outs: [ ]\n";
    assert_eq!(text, expected);
}

#[test]
fn every_location_kind_renders_in_its_own_notation() {
    let loc = |ty: LocationType, reg: u16, off: i32| Location {
        loc_type: ty,
        reserved_0: 0,
        loc_size: 8,
        dwarf_regnum: reg,
        reserved_1: 0,
        offset_or_constant: off,
    };
    let map = StackMap {
        header: Header { version: 3, reserved_0: 0, reserved_1: 0 },
        num_functions: 0,
        num_constants: 1,
        num_records: 1,
        stk_size_records: vec![],
        large_constants: vec![99],
        stk_map_records: vec![StkMapRecord {
            patch_point_id: 1,
            instruction_offset: 0,
            reserved_0: 0,
            num_locations: 5,
            locations: vec![
                loc(LocationType::Register, 3, 0),
                loc(LocationType::Direct, 6, -8),
                loc(LocationType::Indirect, 7, 16),
                loc(LocationType::Constant, 0, -1),
                loc(LocationType::ConstIndex, 0, 0),
            ],
            num_live_outs: 2,
            live_outs: vec![
                LiveOut { dwarf_regnum: 0, reserved_0: 0, size: 8 },
                LiveOut { dwarf_regnum: 15, reserved_0: 0, size: 4 },
            ],
        }],
    };
    let text = map.pretty_print();
    assert!(text.contains("      #1: Register R#3, size: 8\n"));
    assert!(text.contains("      #2: Direct R#6 + -8, size: 8\n"));
    assert!(text.contains("      #3: Indirect [ R#7 + 16], size: 8\n"));
    assert!(text.contains("      #4: Constant -1, size: 8\n"));
    assert!(text.contains("      #5: ConstantIndex #0 (99), size: 8\n"));
    assert!(text.contains("    2 live-outs: [ R#0 (8-bytes) R#15 (4-bytes) ]\n"));
}
