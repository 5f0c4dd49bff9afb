//! Locating the stackmap section in an ELF object file and undoing
//! load-time relocations, so that recorded function addresses are
//! meaningful in a static file.
//!
//! goblin parses the container; everything it hands over is reduced at
//! once to plain values ([`ElfInfo`]), and all decisions — which section
//! matches, which relocation falls in range, what gets patched where —
//! are made by verified code over those values.

use vstd::bytes::spec_u64_to_le_bytes;
use vstd::bytes::u64_to_le_bytes;
use vstd::prelude::*;

use crate::cursor::i64_to_bits;
use crate::cursor::spec_i64_to_bits;
use crate::layout::spec_parse_all;
use crate::stackmap::MalformedReason;
use crate::stackmap::ParsingError;
use crate::stackmap::StackMap;
use crate::stackmap::StackMapView;
use crate::stackmap::stackmaps_view;

verus! {

/// The relocation kind that writes the load bias plus addend
/// (`R_X86_64_RELATIVE` in the ELF ABI).
pub const RELOC_X86_64_RELATIVE: u32 = 8;

/// The relocation kind that writes an absolute symbol address
/// (`R_X86_64_64` in the ELF ABI).
pub const RELOC_X86_64_64: u32 = 1;

/// What one section header says, reduced to plain values.
#[derive(Debug, Clone)]
pub struct SectionInfo {
    /// The section's name, as resolved through the section-header string
    /// table; `None` if the name offset did not resolve.
    pub name: Option<Vec<u8>>,
    /// The file byte range holding the section's data, if the section
    /// occupies space in the file.
    pub file_range: Option<(usize, usize)>,
}

/// One dynamic relocation entry, reduced to plain values.
#[derive(Debug, Clone, Copy)]
pub struct RelaInfo {
    /// The file offset the relocation targets.
    pub offset: u64,
    /// The relocation kind.
    pub kind: u32,
    /// The index of the referenced dynamic symbol.
    pub sym: usize,
    /// The addend, where the entry carries one.
    pub addend: i64,
    /// Whether the entry carries an addend.
    pub has_addend: bool,
}

/// Everything of a parsed ELF file that the stackmap logic reads:
/// section headers with resolved names, the dynamic relocation table,
/// and the dynamic symbols' values by index.
#[derive(Debug, Clone)]
pub struct ElfInfo {
    pub sections: Vec<SectionInfo>,
    pub relas: Vec<RelaInfo>,
    pub dynsym_values: Vec<u64>,
}

/// The name of the section that holds the stackmap table, as ASCII
/// bytes: `.llvm_stackmaps`.
pub open spec fn spec_section_name() -> Seq<u8> {
    seq![46u8, 108u8, 108u8, 118u8, 109u8, 95u8, 115u8, 116u8, 97u8, 99u8, 107u8, 109u8, 97u8,
        112u8, 115u8]
}

/// The name of the section that holds the stackmap table, as ASCII
/// bytes: `.llvm_stackmaps`.
pub fn section_name() -> (r: Vec<u8>)
    ensures
        r@ == spec_section_name(),
{
    let mut r: Vec<u8> = Vec::new();
    r.push(46);
    r.push(108);
    r.push(108);
    r.push(118);
    r.push(109);
    r.push(95);
    r.push(115);
    r.push(116);
    r.push(97);
    r.push(99);
    r.push(107);
    r.push(109);
    r.push(97);
    r.push(112);
    r.push(115);
    proof {
        assert(r@ =~= spec_section_name());
    }
    r
}

/// Whether this section's resolved name is exactly `name`.
pub open spec fn spec_name_matches(s: SectionInfo, name: Seq<u8>) -> bool {
    match s.name {
        Some(n) => n@ == name,
        None => false,
    }
}

/// The file range of the first section whose name is `name`: `None` when
/// no section matches, and the matching section's own (possibly absent)
/// file range when one does — a first match without file data ends the
/// search empty-handed, as the match has already been made.
pub open spec fn spec_locate(sections: Seq<SectionInfo>, name: Seq<u8>) -> Option<(usize, usize)>
    decreases sections.len(),
{
    if sections.len() == 0 {
        None
    } else if spec_name_matches(sections[0], name) {
        sections[0].file_range
    } else {
        spec_locate(sections.skip(1), name)
    }
}

fn bytes_eq(a: &Vec<u8>, b: &[u8]) -> (r: bool)
    ensures
        r == (a@ =~= b@),
{
    if a.len() != b.len() {
        return false;
    }
    let n = a.len();
    let mut i: usize = 0;
    while i < n
        invariant
            n == a@.len() == b@.len(),
            i <= n,
            forall|j: int| 0 <= j < i ==> a@[j] == b@[j],
        decreases n - i,
    {
        if a[i] != b[i] {
            return false;
        }
        i = i + 1;
    }
    true
}

/// The byte range of the file that contains the bytes of the first
/// section named `name`, so that `file[start..end]` yields the section's
/// content; `None` if no section of that name has file data.
pub fn get_section_byte_range(sections: &Vec<SectionInfo>, name: &[u8]) -> (r: Option<
    (usize, usize),
>)
    ensures
        r == spec_locate(sections@, name@),
{
    let n = sections.len();
    let mut i: usize = 0;
    proof {
        assert(sections@.skip(0) =~= sections@);
    }
    while i < n
        invariant
            i <= n,
            n == sections@.len(),
            spec_locate(sections@, name@) == spec_locate(sections@.skip(i as int), name@),
        decreases n - i,
    {
        let matched = match &sections[i].name {
            Some(candidate) => bytes_eq(candidate, name),
            None => false,
        };
        proof {
            assert(sections@.skip(i as int)[0] == sections@[i as int]);
        }
        if matched {
            return sections[i].file_range;
        }
        proof {
            assert(sections@.skip(i as int).skip(1) =~= sections@.skip(i as int + 1));
        }
        i = i + 1;
    }
    proof {
        assert(sections@.skip(n as int).len() == 0);
    }
    None
}

/// `bytes` with the 8 bytes at `at` replaced by the little-endian `v`.
pub open spec fn spec_patch8(bytes: Seq<u8>, at: int, v: u64) -> Seq<u8> {
    bytes.subrange(0, at) + spec_u64_to_le_bytes(v) + bytes.skip(at + 8)
}

fn patch8(section: &mut Vec<u8>, at: usize, v: u64)
    requires
        at + 8 <= old(section)@.len(),
    ensures
        final(section)@ == spec_patch8(old(section)@, at as int, v),
{
    let b = u64_to_le_bytes(v);
    let n = section.len();
    let mut k: usize = 0;
    while k < 8
        invariant
            k <= 8,
            at + 8 <= n,
            n == section@.len(),
            section@.len() == old(section)@.len(),
            b@ == spec_u64_to_le_bytes(v),
            b@.len() == 8,
            forall|j: int| 0 <= j < k ==> section@[at + j] == b@[j],
            forall|j: int| 0 <= j < section@.len() && !(at <= j < at + k) ==> section@[j] == old(
                section,
            )@[j],
        decreases 8 - k,
    {
        let value = b[k];
        section[at + k] = value;
        k = k + 1;
    }
    proof {
        assert(final(section)@ =~= spec_patch8(old(section)@, at as int, v));
    }
}

/// The section bytes after applying, in table order, every dynamic
/// relocation whose target file offset falls inside `[start, end)`:
/// a load-bias-relative entry writes its addend, an absolute-symbol
/// entry writes the referenced dynamic symbol's value, and any other
/// kind that targets the section is a hard error — as are an entry
/// without its addend, a missing symbol, and a target whose 8 bytes
/// reach past the section's end.
pub open spec fn spec_relocate(
    relas: Seq<RelaInfo>,
    syms: Seq<u64>,
    start: int,
    end: int,
    bytes: Seq<u8>,
) -> Result<Seq<u8>, ParsingError>
    decreases relas.len(),
{
    if relas.len() == 0 {
        Ok(bytes)
    } else {
        let r = relas[0];
        if !(start <= r.offset < end) {
            spec_relocate(relas.skip(1), syms, start, end, bytes)
        } else {
            let local = r.offset - start;
            if r.kind == RELOC_X86_64_RELATIVE {
                if !r.has_addend {
                    Err(ParsingError::Malformed(MalformedReason::RelocationMissingAddend))
                } else if local + 8 > bytes.len() {
                    Err(ParsingError::Malformed(MalformedReason::RelocationOutOfBounds))
                } else {
                    spec_relocate(
                        relas.skip(1),
                        syms,
                        start,
                        end,
                        spec_patch8(bytes, local, spec_i64_to_bits(r.addend)),
                    )
                }
            } else if r.kind == RELOC_X86_64_64 {
                if r.sym >= syms.len() {
                    Err(ParsingError::Malformed(MalformedReason::RelocationSymbolMissing))
                } else if local + 8 > bytes.len() {
                    Err(ParsingError::Malformed(MalformedReason::RelocationOutOfBounds))
                } else {
                    spec_relocate(relas.skip(1), syms, start, end, spec_patch8(bytes, local, syms[r.sym as int]))
                }
            } else {
                Err(ParsingError::Malformed(MalformedReason::UnsupportedRelocation(r.kind)))
            }
        }
    }
}

/// Relocate the function addresses contained in the stackmap section:
/// apply every dynamic relocation that targets `[start, end)` to
/// `section`, which holds the bytes of that range.
#[verifier::loop_isolation(false)]
pub fn relocate_stackmap_section(
    relas: &Vec<RelaInfo>,
    syms: &Vec<u64>,
    start: usize,
    end: usize,
    section: &mut Vec<u8>,
) -> (r: Result<(), ParsingError>)
    ensures
        match spec_relocate(relas@, syms@, start as int, end as int, old(section)@) {
            Ok(patched) => r is Ok && final(section)@ == patched,
            Err(e) => r == Err::<(), ParsingError>(e),
        },
{
    let n = relas.len();
    let mut i: usize = 0;
    proof {
        assert(relas@.skip(0) =~= relas@);
    }
    while i < n
        invariant
            i <= n,
            spec_relocate(relas@, syms@, start as int, end as int, old(section)@)
                == spec_relocate(
                relas@.skip(i as int),
                syms@,
                start as int,
                end as int,
                section@,
            ),
        decreases n - i,
    {
        proof {
            assert(relas@.skip(i as int)[0] == relas@[i as int]);
            assert(relas@.skip(i as int).skip(1) =~= relas@.skip(i as int + 1));
        }
        let rela = relas[i];
        if start as u64 <= rela.offset && rela.offset < end as u64 {
            let local = (rela.offset - start as u64) as usize;
            if rela.kind == RELOC_X86_64_RELATIVE {
                if !rela.has_addend {
                    return Err(ParsingError::Malformed(MalformedReason::RelocationMissingAddend));
                }
                if local >= section.len() || section.len() - local < 8 {
                    return Err(ParsingError::Malformed(MalformedReason::RelocationOutOfBounds));
                }
                patch8(section, local, i64_to_bits(rela.addend));
            } else if rela.kind == RELOC_X86_64_64 {
                if rela.sym >= syms.len() {
                    return Err(ParsingError::Malformed(MalformedReason::RelocationSymbolMissing));
                }
                if local >= section.len() || section.len() - local < 8 {
                    return Err(ParsingError::Malformed(MalformedReason::RelocationOutOfBounds));
                }
                let value = syms[rela.sym];
                patch8(section, local, value);
            } else {
                return Err(ParsingError::Malformed(MalformedReason::UnsupportedRelocation(
                    rela.kind,
                )));
            }
        }
        i = i + 1;
    }
    proof {
        assert(relas@.skip(n as int).len() == 0);
    }
    Ok(())
}

/// What loading a stackmap from an ELF image means over plain values:
/// find the section by name, take its byte range out of the file, apply
/// the in-range dynamic relocations, and decode every stackmap instance
/// in the result. A first-named section without file data, or a range
/// that leaves the file, never reaches the decoder.
pub open spec fn spec_load(
    sections: Seq<SectionInfo>,
    relas: Seq<RelaInfo>,
    syms: Seq<u64>,
    file: Seq<u8>,
) -> Result<Seq<StackMapView>, ParsingError> {
    match spec_locate(sections, spec_section_name()) {
        None => Err(ParsingError::SectionNotFound),
        Some((start, end)) => if start > end || end > file.len() {
            Err(ParsingError::Malformed(MalformedReason::SectionOutOfBounds))
        } else {
            match spec_relocate(
                relas,
                syms,
                start as int,
                end as int,
                file.subrange(start as int, end as int),
            ) {
                Err(e) => Err(e),
                Ok(patched) => spec_parse_all(patched),
            }
        },
    }
}

/// The plain facts a given ELF image reduces to: `None` when the image
/// is rejected as unreadable, otherwise every section header with its
/// name resolved, every dynamic RELA entry, and every dynamic symbol's
/// value. Parsing an image and reading these facts from it depend on the
/// bytes alone, which is what entitles the result to a name; what the
/// facts are for given bytes is stated nowhere, and every decision over
/// them is made by verified functions that take them as arguments.
pub uninterp spec fn spec_elf_facts(file: Seq<u8>) -> Option<ElfInfo>;

/// Relies on `goblin::elf::Elf::parse` and on the accessors of the
/// parsed `Elf`: the `section_headers` table with
/// `SectionHeader::file_range` (absent for sections without file data),
/// `Strtab::get_at` on `shdr_strtab` (`None` for an unmapped offset),
/// the `dynrelas` entries' fields, and `Sym::st_value` from `dynsyms`.
/// All of them compute from `file` alone, so the reduction returns
/// `spec_elf_facts(file@)`; `None` when goblin rejects the image.
#[verifier::external_body]
fn elf_facts(file: &[u8]) -> (r: Option<ElfInfo>)
    ensures
        r == spec_elf_facts(file@),
{
    let elf = goblin::elf::Elf::parse(file).ok()?;
    let sections = elf.section_headers.iter().map(|sh| SectionInfo {
        name: elf.shdr_strtab.get_at(sh.sh_name).map(|n| n.as_bytes().to_vec()),
        file_range: sh.file_range().map(|fr| (fr.start, fr.end)),
    }).collect();
    let relas = elf.dynrelas.iter().map(|re| RelaInfo {
        offset: re.r_offset, kind: re.r_type, sym: re.r_sym,
        addend: re.r_addend.unwrap_or(0), has_addend: re.r_addend.is_some(),
    }).collect();
    let dynsym_values = elf.dynsyms.iter().map(|sym| sym.st_value).collect();
    Some(ElfInfo { sections, relas, dynsym_values })
}

/// Whether `file` is an ELF image with a stackmap section that has file
/// data: the image reduces to a section table in which the stackmap
/// section's name finds a match with a file range. Never fails: any
/// parse trouble answers `false`.
pub fn has_stackmap_in_bytes(file: &[u8]) -> (r: bool)
    ensures
        r == match spec_elf_facts(file@) {
            Some(info) => spec_locate(info.sections@, spec_section_name()) is Some,
            None => false,
        },
{
    match elf_facts(file) {
        None => false,
        Some(info) => {
            let name = section_name();
            let range = get_section_byte_range(&info.sections, name.as_slice());
            range.is_some()
        },
    }
}

/// Parse the stackmap(s) of the ELF image `file`: reduce the container
/// to its plain facts, then locate the section, relocate a private copy
/// of its bytes, and decode. An image goblin rejects is malformed; for
/// every readable image the result is fixed by [`spec_load`] over the
/// image's facts.
pub fn load_from_bytes(file: &[u8]) -> (r: Result<Vec<StackMap>, ParsingError>)
    ensures
        match spec_elf_facts(file@) {
            None => r == Err::<Vec<StackMap>, ParsingError>(
                ParsingError::Malformed(MalformedReason::ObjectFileUnreadable),
            ),
            Some(info) => match spec_load(info.sections@, info.relas@, info.dynsym_values@, file@) {
                Ok(ms) => r is Ok && stackmaps_view(r->Ok_0@) == ms,
                Err(e) => r == Err::<Vec<StackMap>, ParsingError>(e),
            },
        },
{
    match elf_facts(file) {
        None => Err(ParsingError::Malformed(MalformedReason::ObjectFileUnreadable)),
        Some(info) => load_from_elf_info(&info, file),
    }
}

/// Load and decode the stackmap(s) of an ELF image whose plain facts are
/// `info` and whose raw bytes are `file`: locate the section, copy its
/// bytes, relocate them, and decode.
pub fn load_from_elf_info(info: &ElfInfo, file: &[u8]) -> (r: Result<Vec<StackMap>, ParsingError>)
    ensures
        match spec_load(info.sections@, info.relas@, info.dynsym_values@, file@) {
            Ok(ms) => r is Ok && stackmaps_view(r->Ok_0@) == ms,
            Err(e) => r == Err::<Vec<StackMap>, ParsingError>(e),
        },
{
    let name = section_name();
    let range = get_section_byte_range(&info.sections, name.as_slice());
    match range {
        None => Err(ParsingError::SectionNotFound),
        Some((start, end)) => {
            if start > end || end > file.len() {
                return Err(ParsingError::Malformed(MalformedReason::SectionOutOfBounds));
            }
            let section_slice = vstd::slice::slice_subrange(file, start, end);
            let mut section = vstd::slice::slice_to_vec(section_slice);
            match relocate_stackmap_section(
                &info.relas,
                &info.dynsym_values,
                start,
                end,
                &mut section,
            ) {
                Err(e) => Err(e),
                Ok(()) => StackMap::new(&mut section),
            }
        },
    }
}

} // verus!
