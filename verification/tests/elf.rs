use llvm_stackmaps::elf::{
    get_section_byte_range, has_stackmap_in_bytes, load_from_bytes, load_from_elf_info,
    relocate_stackmap_section, ElfInfo, RelaInfo, SectionInfo,
};
use llvm_stackmaps::stackmap::{MalformedReason, ParsingError};

fn push_u16(buf: &mut Vec<u8>, v: u16) {
    buf.extend_from_slice(&v.to_le_bytes());
}

fn push_u32(buf: &mut Vec<u8>, v: u32) {
    buf.extend_from_slice(&v.to_le_bytes());
}

fn push_u64(buf: &mut Vec<u8>, v: u64) {
    buf.extend_from_slice(&v.to_le_bytes());
}

/// A minimal valid section: one function (address 0), no constants, no
/// records; 40 bytes.
fn section_bytes() -> Vec<u8> {
    let mut buf = Vec::new();
    buf.push(3);
    buf.push(0);
    push_u16(&mut buf, 0);
    push_u32(&mut buf, 1);
    push_u32(&mut buf, 0);
    push_u32(&mut buf, 0);
    push_u64(&mut buf, 0); // function address, to be relocated
    push_u64(&mut buf, 64); // stack size
    push_u64(&mut buf, 0); // record count
    assert_eq!(buf.len(), 40);
    buf
}

fn named(name: &[u8], range: Option<(usize, usize)>) -> SectionInfo {
    SectionInfo { name: Some(name.to_vec()), file_range: range }
}

#[test]
fn section_lookup_finds_the_first_name_match() {
    let sections = vec![
        named(b".text", Some((0, 50))),
        named(b".llvm_stackmaps", Some((100, 140))),
        named(b".llvm_stackmaps", Some((500, 600))),
    ];
    assert_eq!(
        get_section_byte_range(&sections, b".llvm_stackmaps"),
        Some((100, 140))
    );
    assert_eq!(get_section_byte_range(&sections, b".data"), None);
}

#[test]
fn section_lookup_stops_at_a_match_without_file_data() {
    let sections = vec![
        named(b".llvm_stackmaps", None),
        named(b".llvm_stackmaps", Some((100, 140))),
    ];
    assert_eq!(get_section_byte_range(&sections, b".llvm_stackmaps"), None);
}

#[test]
fn load_bias_relocation_writes_the_addend() {
    // A synthetic image: 100 bytes of padding, then the section. One
    // load-bias-relative relocation targets the function-address field
    // with addend 0x1000: the decoded address must be 0x1000.
    let mut file = vec![0u8; 100];
    file.extend_from_slice(&section_bytes());
    let info = ElfInfo {
        sections: vec![named(b".llvm_stackmaps", Some((100, 140)))],
        relas: vec![RelaInfo {
            offset: 116,
            kind: 8, // R_X86_64_RELATIVE
            sym: 0,
            addend: 0x1000,
            has_addend: true,
        }],
        dynsym_values: vec![],
    };
    let maps = load_from_elf_info(&info, &file).expect("must load");
    assert_eq!(maps.len(), 1);
    assert_eq!(maps[0].stk_size_records[0].function_address, 0x1000);
}

#[test]
fn absolute_relocation_writes_the_symbol_value() {
    let mut file = vec![0u8; 100];
    file.extend_from_slice(&section_bytes());
    let info = ElfInfo {
        sections: vec![named(b".llvm_stackmaps", Some((100, 140)))],
        relas: vec![RelaInfo {
            offset: 116,
            kind: 1, // R_X86_64_64
            sym: 1,
            addend: 0,
            has_addend: true,
        }],
        dynsym_values: vec![0, 0x7777],
    };
    let maps = load_from_elf_info(&info, &file).expect("must load");
    assert_eq!(maps[0].stk_size_records[0].function_address, 0x7777);
}

#[test]
fn missing_symbol_is_a_semantic_error() {
    let mut file = vec![0u8; 100];
    file.extend_from_slice(&section_bytes());
    let info = ElfInfo {
        sections: vec![named(b".llvm_stackmaps", Some((100, 140)))],
        relas: vec![RelaInfo { offset: 116, kind: 1, sym: 5, addend: 0, has_addend: true }],
        dynsym_values: vec![0x7777],
    };
    assert_eq!(
        load_from_elf_info(&info, &file),
        Err(ParsingError::Malformed(MalformedReason::RelocationSymbolMissing))
    );
}

#[test]
fn unsupported_relocation_kind_in_range_fails_loudly() {
    let mut file = vec![0u8; 100];
    file.extend_from_slice(&section_bytes());
    let info = ElfInfo {
        sections: vec![named(b".llvm_stackmaps", Some((100, 140)))],
        relas: vec![RelaInfo { offset: 120, kind: 6, sym: 0, addend: 0, has_addend: true }],
        dynsym_values: vec![],
    };
    assert_eq!(
        load_from_elf_info(&info, &file),
        Err(ParsingError::Malformed(MalformedReason::UnsupportedRelocation(6)))
    );
}

#[test]
fn relocations_outside_the_section_are_ignored() {
    let mut file = vec![0u8; 100];
    file.extend_from_slice(&section_bytes());
    let info = ElfInfo {
        sections: vec![named(b".llvm_stackmaps", Some((100, 140)))],
        // An unsupported kind, but its target sits before the section.
        relas: vec![RelaInfo { offset: 8, kind: 6, sym: 0, addend: 0, has_addend: true }],
        dynsym_values: vec![],
    };
    let maps = load_from_elf_info(&info, &file).expect("must load");
    assert_eq!(maps[0].stk_size_records[0].function_address, 0);
}

#[test]
fn missing_section_reports_section_not_found() {
    let info = ElfInfo {
        sections: vec![named(b".text", Some((0, 4)))],
        relas: vec![],
        dynsym_values: vec![],
    };
    assert_eq!(
        load_from_elf_info(&info, &[0u8; 16]),
        Err(ParsingError::SectionNotFound)
    );
}

#[test]
fn relocate_patches_in_table_order() {
    let mut section = vec![0u8; 16];
    let relas = vec![
        RelaInfo { offset: 200, kind: 8, sym: 0, addend: 0x11, has_addend: true },
        RelaInfo { offset: 200, kind: 8, sym: 0, addend: 0x22, has_addend: true },
        RelaInfo { offset: 208, kind: 8, sym: 0, addend: -1, has_addend: true },
    ];
    let syms = vec![];
    relocate_stackmap_section(&relas, &syms, 200, 216, &mut section).expect("must relocate");
    // The later entry for the same offset wins.
    assert_eq!(&section[0..8], &0x22u64.to_le_bytes());
    // A negative addend is written in two's complement.
    assert_eq!(&section[8..16], &(-1i64).to_le_bytes());
}

#[test]
fn relocation_without_addend_is_rejected() {
    let mut section = vec![0u8; 8];
    let relas = vec![RelaInfo { offset: 0, kind: 8, sym: 0, addend: 0, has_addend: false }];
    assert_eq!(
        relocate_stackmap_section(&relas, &vec![], 0, 8, &mut section),
        Err(ParsingError::Malformed(MalformedReason::RelocationMissingAddend))
    );
}

#[test]
fn relocation_reaching_past_the_section_is_rejected() {
    let mut section = vec![0u8; 8];
    let relas = vec![RelaInfo { offset: 4, kind: 8, sym: 0, addend: 1, has_addend: true }];
    assert_eq!(
        relocate_stackmap_section(&relas, &vec![], 0, 8, &mut section),
        Err(ParsingError::Malformed(MalformedReason::RelocationOutOfBounds))
    );
}

/// A minimal 64-bit little-endian ELF image: the header, the stackmap
/// section's bytes, the section-header string table, and three section
/// headers (null, `.llvm_stackmaps`, `.shstrtab`).
fn synthetic_elf() -> Vec<u8> {
    let section = section_bytes();
    let shstrtab: &[u8] = b"\0.llvm_stackmaps\0.shstrtab\0";
    let section_off = 64usize;
    let shstrtab_off = section_off + section.len(); // 104
    let shoff = shstrtab_off + shstrtab.len(); // 131
    let shoff = (shoff + 7) & !7; // align to 8: 136

    let mut f = Vec::new();
    // e_ident
    f.extend_from_slice(&[0x7f, b'E', b'L', b'F', 2, 1, 1, 0, 0, 0, 0, 0, 0, 0, 0, 0]);
    push_u16(&mut f, 2); // e_type: EXEC
    push_u16(&mut f, 62); // e_machine: x86-64
    push_u32(&mut f, 1); // e_version
    push_u64(&mut f, 0); // e_entry
    push_u64(&mut f, 0); // e_phoff
    push_u64(&mut f, shoff as u64); // e_shoff
    push_u32(&mut f, 0); // e_flags
    push_u16(&mut f, 64); // e_ehsize
    push_u16(&mut f, 56); // e_phentsize
    push_u16(&mut f, 0); // e_phnum
    push_u16(&mut f, 64); // e_shentsize
    push_u16(&mut f, 3); // e_shnum
    push_u16(&mut f, 2); // e_shstrndx
    assert_eq!(f.len(), 64);
    f.extend_from_slice(&section);
    f.extend_from_slice(shstrtab);
    while f.len() < shoff {
        f.push(0);
    }
    let mut shdr = |name: u32, ty: u32, off: u64, size: u64| {
        push_u32(&mut f, name);
        push_u32(&mut f, ty);
        push_u64(&mut f, 0); // sh_flags
        push_u64(&mut f, 0); // sh_addr
        push_u64(&mut f, off);
        push_u64(&mut f, size);
        push_u32(&mut f, 0); // sh_link
        push_u32(&mut f, 0); // sh_info
        push_u64(&mut f, 1); // sh_addralign
        push_u64(&mut f, 0); // sh_entsize
    };
    shdr(0, 0, 0, 0); // null section
    shdr(1, 1, section_off as u64, section.len() as u64); // .llvm_stackmaps
    shdr(17, 3, shstrtab_off as u64, shstrtab.len() as u64); // .shstrtab
    f
}

#[test]
fn whole_elf_image_round_trip_through_goblin() {
    let image = synthetic_elf();
    assert!(has_stackmap_in_bytes(&image));
    let maps = load_from_bytes(&image).expect("synthetic image must load");
    assert_eq!(maps.len(), 1);
    assert_eq!(maps[0].num_functions, 1);
    assert_eq!(maps[0].stk_size_records[0].stack_size, 64);
}

#[test]
fn image_without_the_section_has_no_stackmap() {
    let mut image = synthetic_elf();
    // Break the section's name: it no longer matches.
    image[64 + 40 + 1] = b'x';
    assert!(!has_stackmap_in_bytes(&image));
    assert_eq!(load_from_bytes(&image), Err(ParsingError::SectionNotFound));
}

#[test]
fn garbage_bytes_are_not_an_elf() {
    assert!(!has_stackmap_in_bytes(b"not an elf at all"));
    assert!(load_from_bytes(b"not an elf at all").is_err());
}
